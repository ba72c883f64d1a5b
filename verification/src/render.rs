use vstd::prelude::*;

use crate::json::{Json, JsonNumber, JsonValue, NumberView};
use crate::text::{decimal_text, push_char, push_decimal};

verus! {

// ---------------------------------------------------------------------------
// Pieces shared by both texts
// ---------------------------------------------------------------------------

/// The text of a number as serde_json writes it: the decimal digits of an
/// integer, behind a minus sign where it is negative, and the text held for
/// any other number.
pub open spec fn number_text(n: NumberView) -> Seq<char> {
    match n {
        NumberView::PosInt(u) => decimal_text(u as nat),
        NumberView::NegInt(i) => if i < 0 {
            seq!['-'] + decimal_text((-i) as nat)
        } else {
            decimal_text(i as nat)
        },
        NumberView::Float(t) => t,
    }
}

pub open spec fn bool_text(b: bool) -> Seq<char> {
    if b {
        "true"@
    } else {
        "false"@
    }
}

fn push_str(out: &mut String, s: &str)
    ensures
        final(out)@ == old(out)@ + s@,
{
    out.append(s);
}

fn push_bool(out: &mut String, b: bool)
    ensures
        final(out)@ == old(out)@ + bool_text(b),
{
    if b {
        push_str(out, "true");
    } else {
        push_str(out, "false");
    }
}

fn push_number(out: &mut String, n: &JsonNumber)
    ensures
        final(out)@ == old(out)@ + number_text(n@),
{
    match n {
        JsonNumber::PosInt(u) => push_decimal(out, *u),
        JsonNumber::NegInt(i) => {
            if *i < 0 {
                let ghost before = out@;
                push_char(out, '-');
                let magnitude: u64 = if *i == i64::MIN {
                    9223372036854775808u64
                } else {
                    (-*i) as u64
                };
                push_decimal(out, magnitude);
                assert(out@ =~= before + (seq!['-'] + decimal_text((-*i) as nat)));
            } else {
                push_decimal(out, *i as u64);
            }
        },
        JsonNumber::Float(t) => push_str(out, t.as_str()),
    }
}

// ---------------------------------------------------------------------------
// Debug text
// ---------------------------------------------------------------------------

/// The debug text of a string (`format!("{:?}", s)`): the text in double
/// quotes, with quotes, backslashes and characters that do not print escaped.
pub uninterp spec fn str_debug_text(s: Seq<char>) -> Seq<char>;

/// `format!("{:?}", s)` on a string slice: std's `Debug` for `str`. Which
/// characters it escapes, and how, follows std's Unicode tables of printable
/// and grapheme-extending characters; the contract says only that the result
/// is a function of the text.
#[verifier::external_body]
fn str_debug(s: &str) -> (r: String)
    ensures
        r@ == str_debug_text(s@),
{
    format!("{:?}", s)
}

/// The debug text of a JSON document, in serde_json's format: `Null`,
/// `Bool(..)`, `Number(..)` and `String(..)` round their content, an array is
/// `Array [` its items `]` and an object `Object {` its members `}`, items and
/// members apart by `, `, a member as its key's debug text, `: ` and its value.
/// Members come in the order the document holds them.
pub open spec fn debug_text(v: JsonValue) -> Seq<char>
    decreases v, 0nat,
{
    match v {
        JsonValue::Null => "Null"@,
        JsonValue::Bool(b) => "Bool("@ + bool_text(b) + ")"@,
        JsonValue::Number(n) => "Number("@ + number_text(n) + ")"@,
        JsonValue::Str(s) => "String("@ + str_debug_text(s) + ")"@,
        JsonValue::Array(items) => "Array ["@ + debug_items(items) + "]"@,
        JsonValue::Object(members) => "Object {"@ + debug_members(members) + "}"@,
    }
}

pub open spec fn debug_items(items: Seq<JsonValue>) -> Seq<char>
    decreases items, 1nat,
{
    if items.len() == 0 {
        Seq::empty()
    } else if items.len() == 1 {
        debug_text(items[0])
    } else {
        debug_items(items.drop_last()) + ", "@ + debug_text(items.last())
    }
}

pub open spec fn debug_members(members: Seq<(Seq<char>, JsonValue)>) -> Seq<char>
    decreases members, 1nat,
{
    if members.len() == 0 {
        Seq::empty()
    } else if members.len() == 1 {
        str_debug_text(members[0].0) + ": "@ + debug_text(members[0].1)
    } else {
        debug_members(members.drop_last()) + ", "@ + str_debug_text(members.last().0) + ": "@
            + debug_text(members.last().1)
    }
}

/// The debug text of a JSON document.
pub fn json_debug_text(v: &Json) -> (r: String)
    ensures
        r@ == debug_text(v@),
{
    let mut out = String::new();
    push_debug(&mut out, v);
    assert(out@ =~= debug_text(v@));
    out
}

fn push_debug(out: &mut String, v: &Json)
    ensures
        final(out)@ == old(out)@ + debug_text(v@),
    decreases v,
{
    let ghost start = out@;
    match v {
        Json::Null => push_str(out, "Null"),
        Json::Bool(b) => {
            push_str(out, "Bool(");
            push_bool(out, *b);
            push_str(out, ")");
            assert(out@ =~= start + debug_text(v@));
        },
        Json::Number(n) => {
            push_str(out, "Number(");
            push_number(out, n);
            push_str(out, ")");
            assert(out@ =~= start + debug_text(v@));
        },
        Json::String(s) => {
            push_str(out, "String(");
            let quoted = str_debug(s.as_str());
            push_str(out, quoted.as_str());
            push_str(out, ")");
            assert(out@ =~= start + debug_text(v@));
        },
        Json::Array(items) => {
            let ghost vs = v@->Array_0;
            push_str(out, "Array [");
            let ghost open = out@;
            let n = items.len();
            for i in 0..n
                invariant
                    n == items.len(),
                    *v == Json::Array(*items),
                    vs == v@->Array_0,
                    vs.len() == n,
                    forall|j: int| 0 <= j < n ==> #[trigger] vs[j] == items@[j]@,
                    out@ == open + debug_items(vs.take(i as int)),
            {
                proof {
                    assert(decreases_to!(*v => v->Array_0));
                    assert(decreases_to!(*items => items@));
                    assert(decreases_to!(items@ => items@[i as int]));
                    assert(vs.take(i + 1).drop_last() =~= vs.take(i as int));
                    assert(vs.take(i + 1).last() == vs[i as int]);
                }
                if i > 0 {
                    push_str(out, ", ");
                }
                push_debug(out, &items[i]);
                assert(out@ =~= open + debug_items(vs.take(i + 1)));
            }
            push_str(out, "]");
            assert(vs.take(n as int) =~= vs);
            assert(out@ =~= start + debug_text(v@));
        },
        Json::Object(entries) => {
            let ghost ms = v@->Object_0;
            push_str(out, "Object {");
            let ghost open = out@;
            let n = entries.len();
            for i in 0..n
                invariant
                    n == entries.len(),
                    *v == Json::Object(*entries),
                    ms == v@->Object_0,
                    ms.len() == n,
                    forall|j: int|
                        0 <= j < n ==> #[trigger] ms[j] == (entries@[j].0@, entries@[j].1@),
                    out@ == open + debug_members(ms.take(i as int)),
            {
                proof {
                    assert(decreases_to!(*v => v->Object_0));
                    assert(decreases_to!(*entries => entries@));
                    assert(decreases_to!(entries@ => entries@[i as int]));
                    assert(decreases_to!(entries@[i as int] => entries@[i as int].1));
                    assert(ms.take(i + 1).drop_last() =~= ms.take(i as int));
                    assert(ms.take(i + 1).last() == ms[i as int]);
                }
                if i > 0 {
                    push_str(out, ", ");
                }
                let key = str_debug(entries[i].0.as_str());
                push_str(out, key.as_str());
                push_str(out, ": ");
                push_debug(out, &entries[i].1);
                assert(out@ =~= open + debug_members(ms.take(i + 1)));
            }
            push_str(out, "}");
            assert(ms.take(n as int) =~= ms);
            assert(out@ =~= start + debug_text(v@));
        },
    }
}

// ---------------------------------------------------------------------------
// JSON text
// ---------------------------------------------------------------------------

/// The lower-case hexadecimal digit of `d`.
pub open spec fn hex_digit(d: nat) -> char {
    if d < 10 {
        crate::text::digit_char(d)
    } else if d == 10 {
        'a'
    } else if d == 11 {
        'b'
    } else if d == 12 {
        'c'
    } else if d == 13 {
        'd'
    } else if d == 14 {
        'e'
    } else {
        'f'
    }
}

/// How a character stands inside a JSON string as serde_json writes it: a
/// quote or a backslash behind a backslash, backspace, form feed, line feed,
/// carriage return and tab as `\b`, `\f`, `\n`, `\r`, `\t`, any other control
/// character below U+0020 as `\u00` and two lower-case hex digits, and every
/// other character as itself.
pub open spec fn json_char_text(c: char) -> Seq<char> {
    if c == '"' {
        seq!['\\', '"']
    } else if c == '\\' {
        seq!['\\', '\\']
    } else if c == '\u{8}' {
        seq!['\\', 'b']
    } else if c == '\u{c}' {
        seq!['\\', 'f']
    } else if c == '\n' {
        seq!['\\', 'n']
    } else if c == '\r' {
        seq!['\\', 'r']
    } else if c == '\t' {
        seq!['\\', 't']
    } else if (c as u32) < 0x20 {
        seq!['\\', 'u', '0', '0', hex_digit((c as u32 / 16) as nat), hex_digit((c as u32 % 16) as nat)]
    } else {
        seq![c]
    }
}

/// The characters of `s`, each as it stands inside a JSON string.
pub open spec fn json_escaped(s: Seq<char>) -> Seq<char>
    decreases s.len(),
{
    if s.len() == 0 {
        Seq::empty()
    } else {
        json_escaped(s.drop_last()) + json_char_text(s.last())
    }
}

/// A JSON string literal: the escaped text in double quotes.
pub open spec fn json_string_text(s: Seq<char>) -> Seq<char> {
    seq!['"'] + json_escaped(s) + seq!['"']
}

/// The compact JSON text of a document, as serde_json's `Display` writes it:
/// no white space, items and members apart by `,`, a member as its key's
/// string literal, `:` and its value. Members come in the order the document
/// holds them.
pub open spec fn json_text(v: JsonValue) -> Seq<char>
    decreases v, 0nat,
{
    match v {
        JsonValue::Null => "null"@,
        JsonValue::Bool(b) => bool_text(b),
        JsonValue::Number(n) => number_text(n),
        JsonValue::Str(s) => json_string_text(s),
        JsonValue::Array(items) => seq!['['] + json_items(items) + seq![']'],
        JsonValue::Object(members) => seq!['{'] + json_members(members) + seq!['}'],
    }
}

pub open spec fn json_items(items: Seq<JsonValue>) -> Seq<char>
    decreases items, 1nat,
{
    if items.len() == 0 {
        Seq::empty()
    } else if items.len() == 1 {
        json_text(items[0])
    } else {
        json_items(items.drop_last()) + seq![','] + json_text(items.last())
    }
}

pub open spec fn json_members(members: Seq<(Seq<char>, JsonValue)>) -> Seq<char>
    decreases members, 1nat,
{
    if members.len() == 0 {
        Seq::empty()
    } else if members.len() == 1 {
        json_string_text(members[0].0) + seq![':'] + json_text(members[0].1)
    } else {
        json_members(members.drop_last()) + seq![','] + json_string_text(members.last().0) + seq![
            ':',
        ] + json_text(members.last().1)
    }
}

fn hex(d: u32) -> (c: char)
    requires
        d < 16,
    ensures
        c == hex_digit(d as nat),
{
    if d == 0 {
        '0'
    } else if d == 1 {
        '1'
    } else if d == 2 {
        '2'
    } else if d == 3 {
        '3'
    } else if d == 4 {
        '4'
    } else if d == 5 {
        '5'
    } else if d == 6 {
        '6'
    } else if d == 7 {
        '7'
    } else if d == 8 {
        '8'
    } else if d == 9 {
        '9'
    } else if d == 10 {
        'a'
    } else if d == 11 {
        'b'
    } else if d == 12 {
        'c'
    } else if d == 13 {
        'd'
    } else if d == 14 {
        'e'
    } else {
        'f'
    }
}

fn push_json_char(out: &mut String, c: char)
    ensures
        final(out)@ == old(out)@ + json_char_text(c),
{
    let ghost before = out@;
    let code = c as u32;
    if c == '"' || c == '\\' {
        push_char(out, '\\');
        push_char(out, c);
    } else if c == '\u{8}' {
        push_char(out, '\\');
        push_char(out, 'b');
    } else if c == '\u{c}' {
        push_char(out, '\\');
        push_char(out, 'f');
    } else if c == '\n' {
        push_char(out, '\\');
        push_char(out, 'n');
    } else if c == '\r' {
        push_char(out, '\\');
        push_char(out, 'r');
    } else if c == '\t' {
        push_char(out, '\\');
        push_char(out, 't');
    } else if code < 0x20 {
        push_char(out, '\\');
        push_char(out, 'u');
        push_char(out, '0');
        push_char(out, '0');
        push_char(out, hex(code / 16));
        push_char(out, hex(code % 16));
    } else {
        push_char(out, c);
    }
    assert(out@ =~= before + json_char_text(c));
}

fn push_json_string(out: &mut String, s: &str)
    ensures
        final(out)@ == old(out)@ + json_string_text(s@),
{
    let ghost start = out@;
    push_char(out, '"');
    let ghost open = out@;
    let n = s.unicode_len();
    let mut i: usize = 0;
    while i < n
        invariant
            n == s@.len(),
            i <= n,
            out@ == open + json_escaped(s@.take(i as int)),
        decreases n - i,
    {
        let c = s.get_char(i);
        proof {
            assert(s@.take(i + 1).drop_last() =~= s@.take(i as int));
            assert(s@.take(i + 1).last() == c);
        }
        push_json_char(out, c);
        assert(out@ =~= open + json_escaped(s@.take(i + 1)));
        i = i + 1;
    }
    push_char(out, '"');
    assert(s@.take(n as int) =~= s@);
    assert(out@ =~= start + json_string_text(s@));
}

/// The compact JSON text of a document.
pub fn json_text_of(v: &Json) -> (r: String)
    ensures
        r@ == json_text(v@),
{
    let mut out = String::new();
    push_json(&mut out, v);
    assert(out@ =~= json_text(v@));
    out
}

fn push_json(out: &mut String, v: &Json)
    ensures
        final(out)@ == old(out)@ + json_text(v@),
    decreases v,
{
    let ghost start = out@;
    match v {
        Json::Null => push_str(out, "null"),
        Json::Bool(b) => push_bool(out, *b),
        Json::Number(n) => push_number(out, n),
        Json::String(s) => push_json_string(out, s.as_str()),
        Json::Array(items) => {
            let ghost vs = v@->Array_0;
            push_char(out, '[');
            let ghost open = out@;
            let n = items.len();
            for i in 0..n
                invariant
                    n == items.len(),
                    *v == Json::Array(*items),
                    vs == v@->Array_0,
                    vs.len() == n,
                    forall|j: int| 0 <= j < n ==> #[trigger] vs[j] == items@[j]@,
                    out@ == open + json_items(vs.take(i as int)),
            {
                proof {
                    assert(decreases_to!(*v => v->Array_0));
                    assert(decreases_to!(*items => items@));
                    assert(decreases_to!(items@ => items@[i as int]));
                    assert(vs.take(i + 1).drop_last() =~= vs.take(i as int));
                    assert(vs.take(i + 1).last() == vs[i as int]);
                }
                if i > 0 {
                    push_char(out, ',');
                }
                push_json(out, &items[i]);
                assert(out@ =~= open + json_items(vs.take(i + 1)));
            }
            push_char(out, ']');
            assert(vs.take(n as int) =~= vs);
            assert(out@ =~= start + json_text(v@));
        },
        Json::Object(entries) => {
            let ghost ms = v@->Object_0;
            push_char(out, '{');
            let ghost open = out@;
            let n = entries.len();
            for i in 0..n
                invariant
                    n == entries.len(),
                    *v == Json::Object(*entries),
                    ms == v@->Object_0,
                    ms.len() == n,
                    forall|j: int|
                        0 <= j < n ==> #[trigger] ms[j] == (entries@[j].0@, entries@[j].1@),
                    out@ == open + json_members(ms.take(i as int)),
            {
                proof {
                    assert(decreases_to!(*v => v->Object_0));
                    assert(decreases_to!(*entries => entries@));
                    assert(decreases_to!(entries@ => entries@[i as int]));
                    assert(decreases_to!(entries@[i as int] => entries@[i as int].1));
                    assert(ms.take(i + 1).drop_last() =~= ms.take(i as int));
                    assert(ms.take(i + 1).last() == ms[i as int]);
                }
                if i > 0 {
                    push_char(out, ',');
                }
                push_json_string(out, entries[i].0.as_str());
                push_char(out, ':');
                push_json(out, &entries[i].1);
                assert(out@ =~= open + json_members(ms.take(i + 1)));
            }
            push_char(out, '}');
            assert(ms.take(n as int) =~= ms);
            assert(out@ =~= start + json_text(v@));
        },
    }
}

} // verus!
