//! Rendering of a JSON value as transport text: the byte-for-byte document
//! shape the peer parses. Numbers print in decimal; strings escape the quote,
//! the backslash and control characters.

use vstd::prelude::*;

use crate::json::{jpairs_of, jvals_of, JVal, Json};

verus! {

broadcast use vstd::std_specs::vec::group_vec_axioms, vstd::seq::group_seq_axioms;

/// The decimal digit character for a value below ten.
pub open spec fn dec_digit(n: int) -> char {
    "0123456789"@[n]
}

/// The lower-case hexadecimal digit character for a value below sixteen.
pub open spec fn hex_digit(n: int) -> char {
    "0123456789abcdef"@[n]
}

/// The decimal digits of a natural number, most significant first.
pub open spec fn dec_digits(n: nat) -> Seq<char>
    decreases n,
{
    if n < 10 {
        seq![dec_digit(n as int)]
    } else {
        dec_digits(n / 10) + seq![dec_digit((n % 10) as int)]
    }
}

/// The decimal text of an integer: a minus sign for negative values, then
/// the digits of its magnitude.
pub open spec fn int_text(i: int) -> Seq<char> {
    if i < 0 {
        seq!['-'] + dec_digits((-i) as nat)
    } else {
        dec_digits(i as nat)
    }
}

/// The escape of one string character: the quote and the backslash take a
/// backslash prefix, control characters print as a four-digit escape, and
/// every other character stands for itself.
pub open spec fn esc_char(c: char) -> Seq<char> {
    if c == '"' {
        seq!['\\', '"']
    } else if c == '\\' {
        seq!['\\', '\\']
    } else if (c as u32) < 32 {
        seq!['\\', 'u', '0', '0', hex_digit((c as u32) as int / 16), hex_digit(
            (c as u32) as int % 16,
        )]
    } else {
        seq![c]
    }
}

/// A string body, character by character through `esc_char`.
pub open spec fn escaped(s: Seq<char>) -> Seq<char>
    decreases s.len(),
{
    if s.len() == 0 {
        Seq::<char>::empty()
    } else {
        esc_char(s[0]) + escaped(s.drop_first())
    }
}

/// A quoted, escaped string.
pub open spec fn str_text(s: Seq<char>) -> Seq<char> {
    seq!['"'] + escaped(s) + seq!['"']
}

/// The document text of a JSON value.
pub open spec fn json_text(v: JVal) -> Seq<char>
    decreases v,
{
    match v {
        JVal::Null => "null"@,
        JVal::Bool(b) => if b {
            "true"@
        } else {
            "false"@
        },
        JVal::Int(i) => int_text(i as int),
        JVal::Str(s) => str_text(s),
        JVal::Arr(items) => seq!['['] + arr_text(items) + seq![']'],
        JVal::Obj(ms) => seq!['{'] + obj_text(ms) + seq!['}'],
    }
}

/// The comma-separated bodies of an array.
pub open spec fn arr_text(items: Seq<JVal>) -> Seq<char>
    decreases items,
{
    if items.len() == 0 {
        Seq::<char>::empty()
    } else if items.len() == 1 {
        json_text(items[0])
    } else {
        json_text(items[0]) + seq![','] + arr_text(items.drop_first())
    }
}

/// One object member: a quoted key, a colon, and the value.
pub open spec fn member_text(m: (Seq<char>, JVal)) -> Seq<char>
    decreases m,
{
    str_text(m.0) + seq![':'] + json_text(m.1)
}

/// The comma-separated members of an object.
pub open spec fn obj_text(ms: Seq<(Seq<char>, JVal)>) -> Seq<char>
    decreases ms,
{
    if ms.len() == 0 {
        Seq::<char>::empty()
    } else if ms.len() == 1 {
        member_text(ms[0])
    } else {
        member_text(ms[0]) + seq![','] + obj_text(ms.drop_first())
    }
}

/// Extending a string prefix by one character appends that character's
/// escape to the body text.
proof fn lemma_escaped_take_step(s: Seq<char>, i: int)
    requires
        0 <= i < s.len(),
    ensures
        escaped(s.take(i + 1)) == escaped(s.take(i)) + esc_char(s[i]),
    decreases i,
{
    let a = s.take(i + 1);
    if i == 0 {
        assert(a.drop_first() =~= s.take(0));
        assert(s.take(0) =~= Seq::<char>::empty());
        assert(escaped(a) =~= escaped(s.take(0)) + esc_char(s[0]));
    } else {
        lemma_escaped_take_step(s.drop_first(), i - 1);
        assert(a.drop_first() =~= s.drop_first().take(i));
        assert(s.take(i).drop_first() =~= s.drop_first().take(i - 1));
        assert(escaped(s.take(i + 1)) =~= escaped(s.take(i)) + esc_char(s[i]));
    }
}

/// Extending an array prefix by one item appends a comma and the item's text.
proof fn lemma_arr_text_take_step(items: Seq<JVal>, i: int)
    requires
        1 <= i < items.len(),
    ensures
        arr_text(items.take(i + 1)) == arr_text(items.take(i)) + seq![','] + json_text(
            items[i],
        ),
    decreases i,
{
    reveal_with_fuel(arr_text, 4);
    let a = items.take(i + 1);
    if i == 1 {
        assert(a.drop_first() =~= seq![items[1]]);
        assert(items.take(1) =~= seq![items[0]]);
        assert(arr_text(a) =~= arr_text(items.take(1)) + seq![','] + json_text(items[1]));
    } else {
        lemma_arr_text_take_step(items.drop_first(), i - 1);
        assert(a.drop_first() =~= items.drop_first().take(i));
        assert(items.take(i).drop_first() =~= items.drop_first().take(i - 1));
        assert(arr_text(items.take(i + 1)) =~= arr_text(items.take(i)) + seq![','] + json_text(
            items[i],
        ));
    }
}

/// Extending an object prefix by one member appends a comma and that member.
proof fn lemma_obj_text_take_step(ms: Seq<(Seq<char>, JVal)>, i: int)
    requires
        1 <= i < ms.len(),
    ensures
        obj_text(ms.take(i + 1)) == obj_text(ms.take(i)) + seq![','] + member_text(ms[i]),
    decreases i,
{
    reveal_with_fuel(obj_text, 4);
    let a = ms.take(i + 1);
    if i == 1 {
        assert(a.drop_first() =~= seq![ms[1]]);
        assert(ms.take(1) =~= seq![ms[0]]);
        assert(obj_text(a) =~= obj_text(ms.take(1)) + seq![','] + member_text(ms[1]));
    } else {
        lemma_obj_text_take_step(ms.drop_first(), i - 1);
        assert(a.drop_first() =~= ms.drop_first().take(i));
        assert(ms.take(i).drop_first() =~= ms.drop_first().take(i - 1));
        assert(obj_text(ms.take(i + 1)) =~= obj_text(ms.take(i)) + seq![','] + member_text(
            ms[i],
        ));
    }
}

/// The decimal digit character of a value below ten.
fn digit_char(n: u64) -> (c: char)
    requires
        n < 10,
    ensures
        c == dec_digit(n as int),
{
    proof {
        reveal_strlit("0123456789");
    }
    match n {
        0 => '0',
        1 => '1',
        2 => '2',
        3 => '3',
        4 => '4',
        5 => '5',
        6 => '6',
        7 => '7',
        8 => '8',
        _ => '9',
    }
}

/// The lower-case hexadecimal digit character of a value below sixteen.
fn hex_char(n: u32) -> (c: char)
    requires
        n < 16,
    ensures
        c == hex_digit(n as int),
{
    proof {
        reveal_strlit("0123456789abcdef");
    }
    match n {
        0 => '0',
        1 => '1',
        2 => '2',
        3 => '3',
        4 => '4',
        5 => '5',
        6 => '6',
        7 => '7',
        8 => '8',
        9 => '9',
        10 => 'a',
        11 => 'b',
        12 => 'c',
        13 => 'd',
        14 => 'e',
        _ => 'f',
    }
}

/// Appends the decimal digits of a natural number.
fn push_dec(out: &mut Vec<char>, n: u64)
    ensures
        final(out)@ == old(out)@ + dec_digits(n as nat),
    decreases n,
{
    if n < 10 {
        out.push(digit_char(n));
        assert(final(out)@ =~= old(out)@ + dec_digits(n as nat));
    } else {
        push_dec(out, n / 10);
        out.push(digit_char(n % 10));
        assert(final(out)@ =~= old(out)@ + dec_digits(n as nat));
    }
}

/// Appends the decimal text of an integer.
fn push_int(out: &mut Vec<char>, i: i64)
    ensures
        final(out)@ == old(out)@ + int_text(i as int),
{
    if i < 0 {
        out.push('-');
        let mag: u64 = if i == i64::MIN {
            9223372036854775808u64
        } else {
            (-i) as u64
        };
        assert(mag as nat == (-(i as int)) as nat);
        push_dec(out, mag);
        assert(final(out)@ =~= old(out)@ + int_text(i as int));
    } else {
        push_dec(out, i as u64);
    }
}

/// Appends the escaped body of a string.
#[verifier::loop_isolation(false)]
fn push_escaped(out: &mut Vec<char>, s: &str)
    ensures
        final(out)@ == old(out)@ + escaped(s@),
{
    let n = s.unicode_len();
    assert(s@.take(0) =~= Seq::<char>::empty());
    let mut i: usize = 0;
    while i < n
        invariant
            i <= n,
            out@ == old(out)@ + escaped(s@.take(i as int)),
        decreases n - i,
    {
        let c = s.get_char(i);
        if c == '"' {
            out.push('\\');
            out.push('"');
        } else if c == '\\' {
            out.push('\\');
            out.push('\\');
        } else if (c as u32) < 32 {
            out.push('\\');
            out.push('u');
            out.push('0');
            out.push('0');
            out.push(hex_char((c as u32) / 16));
            out.push(hex_char((c as u32) % 16));
        } else {
            out.push(c);
        }
        proof {
            reveal_with_fuel(escaped, 3);
            if i as int == 0 {
                assert(s@.take(1) =~= seq![s@[0]]);
                assert(escaped(s@.take(1)) =~= esc_char(s@[0]));
            } else {
                lemma_escaped_take_step(s@, i as int);
            }
            assert(out@ =~= old(out)@ + escaped(s@.take(i as int + 1)));
        }
        i = i + 1;
    }
    assert(s@.take(n as int) =~= s@);
}

/// Appends a quoted, escaped string.
fn push_str_text(out: &mut Vec<char>, s: &str)
    ensures
        final(out)@ == old(out)@ + str_text(s@),
{
    out.push('"');
    push_escaped(out, s);
    out.push('"');
    assert(final(out)@ =~= old(out)@ + str_text(s@));
}

/// Appends the document text of a JSON value.
#[verifier::loop_isolation(false)]
fn push_json(out: &mut Vec<char>, v: &Json)
    ensures
        final(out)@ == old(out)@ + json_text(v@),
    decreases v,
{
    match v {
        Json::Null => {
            proof {
                reveal_strlit("null");
            }
            out.push('n');
            out.push('u');
            out.push('l');
            out.push('l');
            assert(final(out)@ =~= old(out)@ + "null"@);
        },
        Json::Bool(b) => {
            if *b {
                proof {
                    reveal_strlit("true");
                }
                out.push('t');
                out.push('r');
                out.push('u');
                out.push('e');
                assert(final(out)@ =~= old(out)@ + "true"@);
            } else {
                proof {
                    reveal_strlit("false");
                }
                out.push('f');
                out.push('a');
                out.push('l');
                out.push('s');
                out.push('e');
                assert(final(out)@ =~= old(out)@ + "false"@);
            }
        },
        Json::Int(x) => {
            push_int(out, *x);
        },
        Json::Str(s) => {
            push_str_text(out, s.as_str());
        },
        Json::Arr(items) => {
            let ghost vals = jvals_of(items@);
            proof {
                crate::json::lemma_jvals_of_index(items@);
            }
            out.push('[');
            let ghost mid = out@;
            let mut i: usize = 0;
            assert(vals.take(0) =~= Seq::<JVal>::empty());
            while i < items.len()
                invariant
                    i <= items.len(),
                    out@ == mid + arr_text(vals.take(i as int)),
                decreases items.len() - i,
            {
                if i > 0 {
                    out.push(',');
                }
                proof {
                    assert(decreases_to!(*v => v->Arr_0));
                    assert(decreases_to!(*items => items@));
                    assert(decreases_to!(items@ => items@[i as int]));
                }
                push_json(out, &items[i]);
                proof {
                    if i as int == 0 {
                        assert(vals.take(1) =~= seq![vals[0]]);
                    } else {
                        lemma_arr_text_take_step(vals, i as int);
                    }
                    assert(out@ =~= mid + arr_text(vals.take(i as int + 1)));
                }
                i = i + 1;
            }
            assert(vals.take(vals.len() as int) =~= vals);
            out.push(']');
            assert(final(out)@ =~= old(out)@ + json_text(v@));
        },
        Json::Obj(pairs) => {
            let ghost ms = jpairs_of(pairs@);
            proof {
                crate::json::lemma_jpairs_of_index(pairs@);
            }
            out.push('{');
            let ghost mid = out@;
            let mut i: usize = 0;
            assert(ms.take(0) =~= Seq::<(Seq<char>, JVal)>::empty());
            while i < pairs.len()
                invariant
                    i <= pairs.len(),
                    out@ == mid + obj_text(ms.take(i as int)),
                decreases pairs.len() - i,
            {
                if i > 0 {
                    out.push(',');
                }
                push_str_text(out, pairs[i].0.as_str());
                out.push(':');
                proof {
                    assert(decreases_to!(*v => v->Obj_0));
                    assert(decreases_to!(*pairs => pairs@));
                    assert(decreases_to!(pairs@ => pairs@[i as int]));
                    assert(decreases_to!(pairs@[i as int] => pairs@[i as int].1));
                }
                push_json(out, &pairs[i].1);
                proof {
                    if i as int == 0 {
                        assert(ms.take(1) =~= seq![ms[0]]);
                        assert(obj_text(ms.take(1)) =~= member_text(ms[0]));
                    } else {
                        lemma_obj_text_take_step(ms, i as int);
                    }
                    assert(out@ =~= mid + obj_text(ms.take(i as int + 1)));
                }
                i = i + 1;
            }
            assert(ms.take(ms.len() as int) =~= ms);
            out.push('}');
            assert(final(out)@ =~= old(out)@ + json_text(v@));
        },
    }
}

/// Relies on String implementing FromIterator over characters: collecting
/// the characters of a vector yields the string of exactly those characters.
#[verifier::external_body]
fn chars_to_string(v: Vec<char>) -> (r: String)
    ensures
        r@ == v@,
{
    v.into_iter().collect()
}

/// Renders a JSON value as its document text.
pub fn json_to_string(v: &Json) -> (r: String)
    ensures
        r@ == json_text(v@),
{
    let mut out: Vec<char> = Vec::new();
    push_json(&mut out, v);
    assert(out@ =~= json_text(v@));
    chars_to_string(out)
}

} // verus!
