//! JSON values as text: how a value is written, how text is read back, and
//! that reading what was written gives the value again.

use crate::report::{
    escape, escape_char, hex_digit, hex_value, is_control, json_string, lemma_escape_front,
    lemma_hex_digit_value, short_escape,
};
use vstd::prelude::*;

verus! {

/// A JSON value made of `null`, booleans, strings, arrays and objects, the
/// members of an object in the order in which they are written.
pub enum JsonValue {
    Null,
    Bool(bool),
    Str(Seq<char>),
    Array(Seq<JsonValue>),
    Object(Seq<(Seq<char>, JsonValue)>),
}

/// `null`.
pub open spec fn null_text() -> Seq<char> {
    seq!['n', 'u', 'l', 'l']
}

/// `true` or `false`.
pub open spec fn bool_literal(b: bool) -> Seq<char> {
    if b {
        seq!['t', 'r', 'u', 'e']
    } else {
        seq!['f', 'a', 'l', 's', 'e']
    }
}

/// The compact JSON text of a value: no whitespace, members in order.
pub open spec fn render(v: JsonValue) -> Seq<char>
    decreases v,
{
    match v {
        JsonValue::Null => null_text(),
        JsonValue::Bool(b) => bool_literal(b),
        JsonValue::Str(s) => json_string(s),
        JsonValue::Array(vs) => seq!['['] + render_elements(vs) + seq![']'],
        JsonValue::Object(ms) => seq!['{'] + render_members(ms) + seq!['}'],
    }
}

/// The elements of an array, separated by commas.
pub open spec fn render_elements(vs: Seq<JsonValue>) -> Seq<char>
    decreases vs,
{
    if vs.len() == 0 {
        Seq::empty()
    } else if vs.len() == 1 {
        render(vs[0])
    } else {
        render(vs[0]) + seq![','] + render_elements(vs.subrange(1, vs.len() as int))
    }
}

/// The members of an object, `"key":value`, separated by commas.
pub open spec fn render_members(ms: Seq<(Seq<char>, JsonValue)>) -> Seq<char>
    decreases ms,
{
    if ms.len() == 0 {
        Seq::empty()
    } else {
        let m = ms[0];
        let first = json_string(m.0) + seq![':'] + render(m.1);
        if ms.len() == 1 {
            first
        } else {
            first + seq![','] + render_members(ms.subrange(1, ms.len() as int))
        }
    }
}

/// Reads the inside of a string literal up to its closing quote: the text
/// that it stands for, and what follows the quote. Raw control characters
/// and unknown escapes are refused.
pub open spec fn read_string_body(t: Seq<char>) -> Option<(Seq<char>, Seq<char>)>
    decreases t.len(),
{
    if t.len() == 0 {
        None
    } else if t[0] == '"' {
        Some((Seq::empty(), t.drop_first()))
    } else if t[0] == '\\' && t.len() >= 2 && short_escape(t[1]) is Some {
        match read_string_body(t.skip(2)) {
            Some((s, r)) => Some((seq![short_escape(t[1])->0] + s, r)),
            None => None,
        }
    } else if t[0] == '\\' && t.len() >= 6 && t[1] == 'u' && hex_value(t[2]) is Some && hex_value(
        t[3],
    ) is Some && hex_value(t[4]) is Some && hex_value(t[5]) is Some {
        let code = hex_value(t[2])->0 * 4096 + hex_value(t[3])->0 * 256 + hex_value(t[4])->0 * 16
            + hex_value(t[5])->0;
        match read_string_body(t.skip(6)) {
            Some((s, r)) => Some((seq![code as char] + s, r)),
            None => None,
        }
    } else if t[0] == '\\' || t[0] <= '\u{1f}' {
        None
    } else {
        match read_string_body(t.drop_first()) {
            Some((s, r)) => Some((seq![t[0]] + s, r)),
            None => None,
        }
    }
}

/// Reads one value from the front of `t`: the value and what follows it.
pub open spec fn read_value(t: Seq<char>) -> Option<(JsonValue, Seq<char>)>
    decreases t.len(), 0int,
{
    if t.len() == 0 {
        None
    } else if t.len() >= 4 && t.take(4) == null_text() {
        Some((JsonValue::Null, t.skip(4)))
    } else if t.len() >= 4 && t.take(4) == bool_literal(true) {
        Some((JsonValue::Bool(true), t.skip(4)))
    } else if t.len() >= 5 && t.take(5) == bool_literal(false) {
        Some((JsonValue::Bool(false), t.skip(5)))
    } else if t[0] == '"' {
        match read_string_body(t.drop_first()) {
            Some((s, r)) => Some((JsonValue::Str(s), r)),
            None => None,
        }
    } else if t[0] == '[' {
        read_array(t.drop_first())
    } else if t[0] == '{' {
        read_object(t.drop_first())
    } else {
        None
    }
}

/// Reads an array after its opening bracket.
pub open spec fn read_array(t: Seq<char>) -> Option<(JsonValue, Seq<char>)>
    decreases t.len(), 2int,
{
    if t.len() > 0 && t[0] == ']' {
        Some((JsonValue::Array(Seq::empty()), t.drop_first()))
    } else {
        match read_elements(t) {
            Some((vs, r)) => Some((JsonValue::Array(vs), r)),
            None => None,
        }
    }
}

/// Reads the elements of a non-empty array and its closing bracket.
pub open spec fn read_elements(t: Seq<char>) -> Option<(Seq<JsonValue>, Seq<char>)>
    decreases t.len(), 1int,
{
    match read_value(t) {
        Some((v, r)) => if 0 < r.len() < t.len() && r[0] == ',' {
            match read_elements(r.drop_first()) {
                Some((vs, r2)) => Some((seq![v] + vs, r2)),
                None => None,
            }
        } else if 0 < r.len() && r[0] == ']' {
            Some((seq![v], r.drop_first()))
        } else {
            None
        },
        None => None,
    }
}

/// Reads an object after its opening brace.
pub open spec fn read_object(t: Seq<char>) -> Option<(JsonValue, Seq<char>)>
    decreases t.len(), 2int,
{
    if t.len() > 0 && t[0] == '}' {
        Some((JsonValue::Object(Seq::empty()), t.drop_first()))
    } else {
        match read_members(t) {
            Some((ms, r)) => Some((JsonValue::Object(ms), r)),
            None => None,
        }
    }
}

/// Reads the members of a non-empty object and its closing brace.
pub open spec fn read_members(t: Seq<char>) -> Option<(Seq<(Seq<char>, JsonValue)>, Seq<char>)>
    decreases t.len(), 1int,
{
    if t.len() > 0 && t[0] == '"' {
        match read_string_body(t.drop_first()) {
            Some((k, r)) => if 0 < r.len() < t.len() && r[0] == ':' {
                match read_value(r.drop_first()) {
                    Some((v, r2)) => if 0 < r2.len() < t.len() && r2[0] == ',' {
                        match read_members(r2.drop_first()) {
                            Some((ms, r3)) => Some((seq![(k, v)] + ms, r3)),
                            None => None,
                        }
                    } else if 0 < r2.len() && r2[0] == '}' {
                        Some((seq![(k, v)], r2.drop_first()))
                    } else {
                        None
                    },
                    None => None,
                }
            } else {
                None
            },
            None => None,
        }
    } else {
        None
    }
}

/// The value that the whole text `t` holds, if it holds exactly one.
pub open spec fn parse_json(t: Seq<char>) -> Option<JsonValue> {
    match read_value(t) {
        Some((v, r)) => if r.len() == 0 {
            Some(v)
        } else {
            None
        },
        None => None,
    }
}


/// One written character reads back as itself, and reading goes on right
/// after it.
proof fn lemma_read_escaped_char(c: char, u: Seq<char>)
    ensures
        read_string_body(escape_char(c) + u) == (match read_string_body(u) {
            Some((x, r)) => Some((seq![c] + x, r)),
            None => None,
        }),
{
    let t = escape_char(c) + u;
    if c == '"' || c == '\\' || c == '\n' || c == '\r' || c == '\t' {
        assert(t[0] == '\\');
        assert(short_escape(t[1]) == Some(c));
        assert(t.skip(2) == u);
    } else if is_control(c) {
        let n = c as int;
        assert(0 <= n <= 0x9f);
        assert(n / 4096 % 16 * 4096 + n / 256 % 16 * 256 + n / 16 % 16 * 16 + n % 16 == n)
            by (nonlinear_arith)
            requires
                0 <= n <= 0x9f,
        ;
        lemma_hex_digit_value(n / 4096 % 16);
        lemma_hex_digit_value(n / 256 % 16);
        lemma_hex_digit_value(n / 16 % 16);
        lemma_hex_digit_value(n % 16);
        assert(t.skip(6) == u);
        assert(t[0] == '\\' && t[1] == 'u');
        assert(t[2] == hex_digit(n / 4096 % 16));
        assert(t[3] == hex_digit(n / 256 % 16));
        assert(t[4] == hex_digit(n / 16 % 16));
        assert(t[5] == hex_digit(n % 16));
        assert(short_escape('u') is None);
    } else {
        assert(t[0] == c);
        assert(t.drop_first() == u);
    }
}

/// The inside of a written string literal reads back as its text, and the
/// reading stops at the closing quote.
proof fn lemma_read_string_body(s: Seq<char>, rest: Seq<char>)
    ensures
        read_string_body(escape(s) + seq!['"'] + rest) == Some((s, rest)),
    decreases s.len(),
{
    let t = escape(s) + seq!['"'] + rest;
    if s.len() == 0 {
        assert(escape(s) == Seq::<char>::empty());
        assert(t.drop_first() == rest);
    } else {
        let s1 = s.drop_first();
        lemma_escape_front(s);
        let u = escape(s1) + seq!['"'] + rest;
        assert(t == escape_char(s[0]) + u);
        lemma_read_string_body(s1, rest);
        lemma_read_escaped_char(s[0], u);
        assert(s == seq![s[0]] + s1);
    }
}

/// The text of a value is not empty, and its first character tells what
/// kind of value it is.
proof fn lemma_render_first(v: JsonValue)
    ensures
        render(v).len() > 0,
        render(v)[0] == (match v {
            JsonValue::Null => 'n',
            JsonValue::Bool(b) => if b {
                't'
            } else {
                'f'
            },
            JsonValue::Str(_) => '"',
            JsonValue::Array(_) => '[',
            JsonValue::Object(_) => '{',
        }),
{
}

/// A text that starts with a quote, a bracket or a brace is read as a
/// string, an array or an object.
proof fn lemma_read_value_front(t: Seq<char>)
    requires
        t.len() > 0,
        t[0] == '"' || t[0] == '[' || t[0] == '{',
    ensures
        t[0] == '"' ==> read_value(t) == (match read_string_body(t.drop_first()) {
            Some((s, r)) => Some((JsonValue::Str(s), r)),
            None => None,
        }),
        t[0] == '[' ==> read_value(t) == read_array(t.drop_first()),
        t[0] == '{' ==> read_value(t) == read_object(t.drop_first()),
{
    if t.len() >= 4 {
        assert(t.take(4)[0] == t[0]);
    }
    if t.len() >= 5 {
        assert(t.take(5)[0] == t[0]);
    }
}

/// `null`, `true` and `false` read back as themselves.
proof fn lemma_read_literal(v: JsonValue, rest: Seq<char>)
    requires
        v is Null || v is Bool,
    ensures
        read_value(render(v) + rest) == Some((v, rest)),
{
    let t = render(v) + rest;
    assert(t.take(4)[0] == render(v)[0]);
    match v {
        JsonValue::Bool(b) => {
            if b {
                assert(t.take(4) == bool_literal(true));
                assert(t.skip(4) == rest);
            } else {
                assert(t.take(5) == bool_literal(false));
                assert(t.skip(5) == rest);
            }
        },
        _ => {
            assert(t.take(4) == null_text());
            assert(t.skip(4) == rest);
        },
    }
}

/// A string literal reads back as its text.
proof fn lemma_read_str(s: Seq<char>, rest: Seq<char>)
    ensures
        read_value(render(JsonValue::Str(s)) + rest) == Some((JsonValue::Str(s), rest)),
{
    let t = render(JsonValue::Str(s)) + rest;
    assert(t[0] == '"');
    lemma_read_value_front(t);
    assert(t.drop_first() == escape(s) + seq!['"'] + rest);
    lemma_read_string_body(s, rest);
}

/// An array reads back as its elements once they do.
proof fn lemma_read_array_text(vs: Seq<JsonValue>, rest: Seq<char>)
    requires
        vs.len() > 0 ==> read_elements(render_elements(vs) + seq![']'] + rest) == Some((vs, rest)),
    ensures
        read_value(render(JsonValue::Array(vs)) + rest) == Some((JsonValue::Array(vs), rest)),
{
    let t = render(JsonValue::Array(vs)) + rest;
    assert(t[0] == '[');
    lemma_read_value_front(t);
    let u = t.drop_first();
    assert(u == render_elements(vs) + seq![']'] + rest);
    if vs.len() == 0 {
        assert(u[0] == ']');
        assert(u.drop_first() == rest);
        assert(vs == Seq::<JsonValue>::empty());
    } else {
        lemma_render_first(vs[0]);
        assert(u[0] == render(vs[0])[0]);
    }
}

/// An object reads back as its members once they do.
proof fn lemma_read_object_text(ms: Seq<(Seq<char>, JsonValue)>, rest: Seq<char>)
    requires
        ms.len() > 0 ==> read_members(render_members(ms) + seq!['}'] + rest) == Some((ms, rest)),
    ensures
        read_value(render(JsonValue::Object(ms)) + rest) == Some((JsonValue::Object(ms), rest)),
{
    let t = render(JsonValue::Object(ms)) + rest;
    assert(t[0] == '{');
    lemma_read_value_front(t);
    let u = t.drop_first();
    assert(u == render_members(ms) + seq!['}'] + rest);
    if ms.len() == 0 {
        assert(u[0] == '}');
        assert(u.drop_first() == rest);
        assert(ms == Seq::<(Seq<char>, JsonValue)>::empty());
    } else {
        assert(u[0] == '"');
    }
}

/// Reading the text of a value gives the value back, and reading goes on
/// right after it.
pub proof fn lemma_read_render(v: JsonValue, rest: Seq<char>)
    ensures
        read_value(render(v) + rest) == Some((v, rest)),
    decreases v,
{
    match v {
        JsonValue::Str(s) => lemma_read_str(s, rest),
        JsonValue::Array(vs) => {
            if vs.len() > 0 {
                lemma_read_elements(vs, rest);
            }
            lemma_read_array_text(vs, rest);
        },
        JsonValue::Object(ms) => {
            if ms.len() > 0 {
                lemma_read_members(ms, rest);
            }
            lemma_read_object_text(ms, rest);
        },
        _ => lemma_read_literal(v, rest),
    }
}

/// Reading the elements of a non-empty array gives them back, up to and
/// past the closing bracket.
#[verifier::spinoff_prover]
proof fn lemma_read_elements(vs: Seq<JsonValue>, rest: Seq<char>)
    requires
        vs.len() > 0,
    ensures
        read_elements(render_elements(vs) + seq![']'] + rest) == Some((vs, rest)),
    decreases vs,
{
    let t = render_elements(vs) + seq![']'] + rest;
    lemma_render_first(vs[0]);
    if vs.len() == 1 {
        let r = seq![']'] + rest;
        assert(t == render(vs[0]) + r);
        lemma_read_render(vs[0], r);
        assert(r.drop_first() == rest);
        assert(vs == seq![vs[0]]);
    } else {
        let tail = vs.subrange(1, vs.len() as int);
        let r = seq![','] + render_elements(tail) + seq![']'] + rest;
        assert(t == render(vs[0]) + r);
        lemma_read_render(vs[0], r);
        assert(r.drop_first() == render_elements(tail) + seq![']'] + rest);
        lemma_read_elements(tail, rest);
        assert(vs == seq![vs[0]] + tail);
    }
}

/// Reading the members of a non-empty object gives them back, up to and
/// past the closing brace.
#[verifier::rlimit(40)]
#[verifier::spinoff_prover]
proof fn lemma_read_members(ms: Seq<(Seq<char>, JsonValue)>, rest: Seq<char>)
    requires
        ms.len() > 0,
    ensures
        read_members(render_members(ms) + seq!['}'] + rest) == Some((ms, rest)),
    decreases ms,
{
    let m = ms[0];
    let after = if ms.len() == 1 {
        seq!['}'] + rest
    } else {
        seq![','] + render_members(ms.subrange(1, ms.len() as int)) + seq!['}'] + rest
    };
    let x = seq![':'] + render(m.1) + after;
    let t = render_members(ms) + seq!['}'] + rest;
    assert(t == seq!['"'] + escape(m.0) + seq!['"'] + x);
    assert(t.drop_first() == escape(m.0) + seq!['"'] + x);
    lemma_read_string_body(m.0, x);
    assert(x.drop_first() == render(m.1) + after);
    assert(decreases_to!(ms => ms[0]));
    assert(decreases_to!(ms[0] => ms[0].1));
    lemma_read_render(m.1, after);
    lemma_render_first(m.1);
    if ms.len() == 1 {
        assert(after.drop_first() == rest);
        assert(ms == seq![(m.0, m.1)]);
    } else {
        let tail = ms.subrange(1, ms.len() as int);
        assert(after.drop_first() == render_members(tail) + seq!['}'] + rest);
        lemma_read_members(tail, rest);
        assert(ms == seq![(m.0, m.1)] + tail);
    }
}

/// The written text of a value parses as that value.
pub proof fn lemma_parse_render(v: JsonValue)
    ensures
        parse_json(render(v)) == Some(v),
{
    lemma_read_render(v, Seq::empty());
    assert(render(v) + Seq::<char>::empty() == render(v));
}

} // verus!
