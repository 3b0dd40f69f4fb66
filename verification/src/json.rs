//! Compact JSON text of [`JsonData`] values, with the string escaping of
//! `serde_json`.
use vstd::prelude::*;
use vstd::string::*;
use crate::framework::JsonData;
use crate::text::{chars_of, decimal_seq, decimal_string, push_char};

verus! {

/// Lower-case hexadecimal digit of `d < 16`.
pub open spec fn hex_digit(d: u32) -> char {
    if d < 10 {
        (d + 48) as char
    } else {
        (d + 87) as char
    }
}

/// The escaped form of one character inside a JSON string: `"` and `\` are
/// backslash-escaped, backspace, form feed, line feed, carriage return and tab use
/// their short escapes, other control characters below 0x20 use `\u00XX`, and
/// everything else stands for itself.
pub open spec fn escape_char(c: char) -> Seq<char> {
    let u = c as u32;
    if c == '"' {
        seq!['\\', '"']
    } else if c == '\\' {
        seq!['\\', '\\']
    } else if u == 8 {
        seq!['\\', 'b']
    } else if u == 12 {
        seq!['\\', 'f']
    } else if c == '\n' {
        seq!['\\', 'n']
    } else if c == '\r' {
        seq!['\\', 'r']
    } else if c == '\t' {
        seq!['\\', 't']
    } else if u < 32 {
        seq!['\\', 'u', '0', '0', hex_digit(u / 16), hex_digit(u % 16)]
    } else {
        seq![c]
    }
}

/// The escaped body of a JSON string.
pub open spec fn escaped(s: Seq<char>) -> Seq<char>
    decreases s.len(),
{
    if s.len() == 0 {
        Seq::empty()
    } else {
        escaped(s.drop_last()) + escape_char(s.last())
    }
}

/// A JSON string literal.
pub open spec fn quoted(s: Seq<char>) -> Seq<char> {
    seq!['"'] + escaped(s) + seq!['"']
}

/// Decimal text of a signed integer.
pub open spec fn integer_text(n: i64) -> Seq<char> {
    if n < 0 {
        seq!['-'] + decimal_seq((-(n as int)) as nat)
    } else {
        decimal_seq(n as nat)
    }
}

/// The compact JSON text of a value.
pub open spec fn json_text(j: JsonData) -> Seq<char>
    decreases j,
{
    match j {
        JsonData::Null => "null"@,
        JsonData::Bool(b) => if b {
            "true"@
        } else {
            "false"@
        },
        JsonData::Integer(n) => integer_text(n),
        JsonData::String(s) => quoted(s@),
        JsonData::Array(v) => seq!['['] + items_text(v@) + seq![']'],
        JsonData::Object(m) => seq!['{'] + members_text(m@) + seq!['}'],
    }
}

/// The comma-separated texts of array items.
pub open spec fn items_text(s: Seq<JsonData>) -> Seq<char>
    decreases s,
{
    if s.len() == 0 {
        Seq::empty()
    } else if s.len() == 1 {
        json_text(s[0])
    } else {
        items_text(s.subrange(0, s.len() - 1)) + seq![','] + json_text(s[s.len() - 1])
    }
}

/// The comma-separated texts of object members (`"key":value`).
pub open spec fn members_text(s: Seq<(String, JsonData)>) -> Seq<char>
    decreases s,
{
    if s.len() == 0 {
        Seq::empty()
    } else if s.len() == 1 {
        quoted(s[0].0@) + seq![':'] + json_text(s[0].1)
    } else {
        members_text(s.subrange(0, s.len() - 1)) + seq![','] + quoted(s[s.len() - 1].0@) + seq![':']
            + json_text(s[s.len() - 1].1)
    }
}

fn hex_digit_exec(d: u32) -> (c: char)
    requires
        d < 16,
    ensures
        c == hex_digit(d),
{
    if d < 10 {
        char_of_code(d + 48)
    } else {
        char_of_code(d + 87)
    }
}

fn char_of_code(u: u32) -> (c: char)
    requires
        u < 128,
    ensures
        c == u as char,
{
    let b = u as u8;
    b as char
}

fn push_escaped_char(out: &mut String, c: char)
    ensures
        final(out)@ == old(out)@ + escape_char(c),
{
    let u = c as u32;
    if c == '"' {
        out.append("\\\"");
        proof { reveal_strlit("\\\""); }
    } else if c == '\\' {
        out.append("\\\\");
        proof { reveal_strlit("\\\\"); }
    } else if u == 8 {
        out.append("\\b");
        proof { reveal_strlit("\\b"); }
    } else if u == 12 {
        out.append("\\f");
        proof { reveal_strlit("\\f"); }
    } else if c == '\n' {
        out.append("\\n");
        proof { reveal_strlit("\\n"); }
    } else if c == '\r' {
        out.append("\\r");
        proof { reveal_strlit("\\r"); }
    } else if c == '\t' {
        out.append("\\t");
        proof { reveal_strlit("\\t"); }
    } else if u < 32 {
        out.append("\\u00");
        proof { reveal_strlit("\\u00"); }
        push_char(out, hex_digit_exec(u / 16));
        push_char(out, hex_digit_exec(u % 16));
    } else {
        push_char(out, c);
    }
    assert(final(out)@ =~= old(out)@ + escape_char(c));
}

fn write_quoted(out: &mut String, s: &str)
    ensures
        final(out)@ == old(out)@ + quoted(s@),
{
    let cs = chars_of(s);
    push_char(out, '"');
    let ghost base = out@;
    let mut i: usize = 0;
    while i < cs.len()
        invariant
            i <= cs@.len(),
            cs@ == s@,
            out@ == base + escaped(cs@.subrange(0, i as int)),
        decreases cs@.len() - i,
    {
        assert(cs@.subrange(0, i + 1).drop_last() =~= cs@.subrange(0, i as int));
        push_escaped_char(out, cs[i]);
        assert(out@ =~= base + escaped(cs@.subrange(0, i + 1)));
        i = i + 1;
    }
    assert(cs@.subrange(0, cs@.len() as int) =~= s@);
    push_char(out, '"');
    assert(final(out)@ =~= old(out)@ + quoted(s@));
}

fn write_integer(out: &mut String, n: i64)
    ensures
        final(out)@ == old(out)@ + integer_text(n),
{
    if n < 0 {
        push_char(out, '-');
        let m: u128 = (0i128 - (n as i128)) as u128;
        let d = decimal_string(m);
        out.append(d.as_str());
        assert(final(out)@ =~= old(out)@ + integer_text(n));
    } else {
        let d = decimal_string(n as u128);
        out.append(d.as_str());
    }
}

/// Appends the compact JSON text of `j` to `out`.
pub fn write_json(out: &mut String, j: &JsonData)
    ensures
        final(out)@ == old(out)@ + json_text(*j),
    decreases j,
{
    match j {
        JsonData::Null => {
            out.append("null");
        },
        JsonData::Bool(b) => {
            if *b {
                out.append("true");
            } else {
                out.append("false");
            }
        },
        JsonData::Integer(n) => {
            write_integer(out, *n);
        },
        JsonData::String(s) => {
            write_quoted(out, s.as_str());
        },
        JsonData::Array(v) => {
            push_char(out, '[');
            let ghost base = out@;
            let mut i: usize = 0;
            while i < v.len()
                invariant
                    *j == JsonData::Array(*v),
                    i <= v@.len(),
                    out@ == base + items_text(v@.subrange(0, i as int)),
                decreases v@.len() - i,
            {
                if i > 0 {
                    push_char(out, ',');
                }
                proof {
                    assert(decreases_to!(*j => (*j)->Array_0));
                    assert((*j)->Array_0 == *v);
                    assert(decreases_to!(*v => v@));
                    assert(decreases_to!(v@ => v@[i as int]));
                    assert(decreases_to!(*j => v@[i as int]));
                }
                write_json(out, &v[i]);
                proof {
                    let t = v@.subrange(0, i + 1);
                    assert(t.subrange(0, t.len() - 1) =~= v@.subrange(0, i as int));
                    assert(t[t.len() - 1] == v@[i as int]);
                    if i == 0 {
                        assert(v@.subrange(0, 0) =~= Seq::<JsonData>::empty());
                    }
                    assert(out@ =~= base + items_text(t));
                }
                i = i + 1;
            }
            assert(v@.subrange(0, v@.len() as int) =~= v@);
            push_char(out, ']');
            assert(final(out)@ =~= old(out)@ + json_text(*j));
        },
        JsonData::Object(m) => {
            push_char(out, '{');
            let ghost base = out@;
            let mut i: usize = 0;
            while i < m.len()
                invariant
                    *j == JsonData::Object(*m),
                    i <= m@.len(),
                    out@ == base + members_text(m@.subrange(0, i as int)),
                decreases m@.len() - i,
            {
                if i > 0 {
                    push_char(out, ',');
                }
                write_quoted(out, m[i].0.as_str());
                push_char(out, ':');
                proof {
                    assert(decreases_to!(*j => (*j)->Object_0));
                    assert((*j)->Object_0 == *m);
                    assert(decreases_to!(*m => m@));
                    assert(decreases_to!(m@ => m@[i as int]));
                    assert(decreases_to!(m@[i as int] => m@[i as int].1));
                    assert(decreases_to!(*j => m@[i as int].1));
                }
                write_json(out, &m[i].1);
                proof {
                    let t = m@.subrange(0, i + 1);
                    assert(t.subrange(0, t.len() - 1) =~= m@.subrange(0, i as int));
                    assert(t[t.len() - 1] == m@[i as int]);
                    if i == 0 {
                        assert(m@.subrange(0, 0) =~= Seq::<(String, JsonData)>::empty());
                    }
                    assert(out@ =~= base + members_text(t));
                }
                i = i + 1;
            }
            assert(m@.subrange(0, m@.len() as int) =~= m@);
            push_char(out, '}');
            assert(final(out)@ =~= old(out)@ + json_text(*j));
        },
    }
}

/// The compact JSON text of a value.
pub fn to_json_string(j: &JsonData) -> (r: String)
    ensures
        r@ == json_text(*j),
{
    let mut out = String::new();
    write_json(&mut out, j);
    assert(out@ =~= json_text(*j));
    out
}

/// Two item lists whose items have the same texts have the same text.
proof fn lemma_items_text_eq(a: Seq<JsonData>, b: Seq<JsonData>)
    requires
        a.len() == b.len(),
        forall|k: int| 0 <= k < a.len() ==> json_text(#[trigger] a[k]) == json_text(b[k]),
    ensures
        items_text(a) == items_text(b),
    decreases a.len(),
{
    if a.len() > 1 {
        let a1 = a.subrange(0, a.len() - 1);
        let b1 = b.subrange(0, b.len() - 1);
        assert forall|k: int| 0 <= k < a1.len() implies json_text(#[trigger] a1[k]) == json_text(b1[k]) by {
            assert(a1[k] == a[k] && b1[k] == b[k]);
        }
        lemma_items_text_eq(a1, b1);
    }
}

/// Two member lists with the same keys whose values have the same texts have the
/// same text.
proof fn lemma_members_text_eq(a: Seq<(String, JsonData)>, b: Seq<(String, JsonData)>)
    requires
        a.len() == b.len(),
        forall|k: int| 0 <= k < a.len() ==> (#[trigger] a[k]).0@ == b[k].0@ && json_text(a[k].1) == json_text(b[k].1),
    ensures
        members_text(a) == members_text(b),
    decreases a.len(),
{
    if a.len() > 1 {
        let a1 = a.subrange(0, a.len() - 1);
        let b1 = b.subrange(0, b.len() - 1);
        assert forall|k: int| 0 <= k < a1.len() implies (#[trigger] a1[k]).0@ == b1[k].0@ && json_text(a1[k].1)
            == json_text(b1[k].1) by {
            assert(a1[k] == a[k] && b1[k] == b[k]);
        }
        lemma_members_text_eq(a1, b1);
    }
}

/// A copy of a JSON value, with the same text.
pub fn duplicate_json(j: &JsonData) -> (r: JsonData)
    ensures
        json_text(r) == json_text(*j),
    decreases j,
{
    match j {
        JsonData::Null => JsonData::Null,
        JsonData::Bool(b) => JsonData::Bool(*b),
        JsonData::Integer(n) => JsonData::Integer(*n),
        JsonData::String(s) => JsonData::String(s.clone()),
        JsonData::Array(v) => {
            let mut out: Vec<JsonData> = Vec::new();
            let mut i: usize = 0;
            while i < v.len()
                invariant
                    *j == JsonData::Array(*v),
                    i <= v@.len(),
                    out@.len() == i,
                    forall|k: int| 0 <= k < i ==> json_text(#[trigger] out@[k]) == json_text(v@[k]),
                decreases v@.len() - i,
            {
                proof {
                    assert(decreases_to!(*j => (*j)->Array_0));
                    assert((*j)->Array_0 == *v);
                    assert(decreases_to!(*v => v@));
                    assert(decreases_to!(v@ => v@[i as int]));
                    assert(decreases_to!(*j => v@[i as int]));
                }
                let c = duplicate_json(&v[i]);
                out.push(c);
                i = i + 1;
            }
            proof {
                lemma_items_text_eq(out@, v@);
            }
            JsonData::Array(out)
        },
        JsonData::Object(m) => {
            let mut out: Vec<(String, JsonData)> = Vec::new();
            let mut i: usize = 0;
            while i < m.len()
                invariant
                    *j == JsonData::Object(*m),
                    i <= m@.len(),
                    out@.len() == i,
                    forall|k: int| 0 <= k < i ==> (#[trigger] out@[k]).0@ == m@[k].0@ && json_text(out@[k].1)
                        == json_text(m@[k].1),
                decreases m@.len() - i,
            {
                proof {
                    assert(decreases_to!(*j => (*j)->Object_0));
                    assert((*j)->Object_0 == *m);
                    assert(decreases_to!(*m => m@));
                    assert(decreases_to!(m@ => m@[i as int]));
                    assert(decreases_to!(m@[i as int] => m@[i as int].1));
                    assert(decreases_to!(*j => m@[i as int].1));
                }
                let c = duplicate_json(&m[i].1);
                let k = m[i].0.clone();
                out.push((k, c));
                i = i + 1;
            }
            proof {
                lemma_members_text_eq(out@, m@);
            }
            JsonData::Object(out)
        },
    }
}

} // verus!
