//! JSON objects on one line.

use vstd::prelude::*;

use crate::ids::hex_digit;
use crate::text::is_one_line;

verus! {

/// A character as it stands in a JSON string.
pub open spec fn escape_of(c: char) -> Seq<char> {
    if c == '"' {
        seq!['\\', '"']
    } else if c == '\\' {
        seq!['\\', '\\']
    } else if c == '\n' {
        seq!['\\', 'n']
    } else if c == '\r' {
        seq!['\\', 'r']
    } else if c == '\t' {
        seq!['\\', 't']
    } else if c as u32 == 8 {
        seq!['\\', 'b']
    } else if c as u32 == 12 {
        seq!['\\', 'f']
    } else if (c as u32) < 32 {
        seq![
            '\\',
            'u',
            '0',
            '0',
            hex_digit(c as nat / 16),
            hex_digit(c as nat % 16),
        ]
    } else {
        seq![c]
    }
}

/// A text as it stands between the quotes of a JSON string.
pub open spec fn escaped(s: Seq<char>) -> Seq<char>
    decreases s.len(),
{
    if s.len() == 0 {
        Seq::empty()
    } else {
        escaped(s.drop_last()) + escape_of(s.last())
    }
}

/// A text as a JSON string.
pub open spec fn json_text(s: Seq<char>) -> Seq<char> {
    "\""@ + escaped(s) + "\""@
}

/// `serde_json::to_string` of a `str`: the text in quotes; the quote, the
/// backslash and the control characters below the space are escaped, with a
/// letter where there is one, else by their number in lower-case hexadecimal.
#[verifier::external_body]
fn to_json(s: &str) -> (r: String)
    ensures
        r@ == json_text(s@),
{
    serde_json::to_string(s).unwrap()
}

/// A text as a JSON string.
pub fn json_string(s: &str) -> (r: String)
    ensures
        r@ == json_text(s@),
{
    to_json(s)
}

proof fn lemma_escape_is_one_line(c: char)
    ensures
        is_one_line(escape_of(c)),
{
    if (c as u32) < 32 {
        assert(hex_digit(c as nat / 16) != '\n' && hex_digit(c as nat / 16) != '\r');
        assert(hex_digit(c as nat % 16) != '\n' && hex_digit(c as nat % 16) != '\r');
    }
}

/// Escaped text stands on one line.
pub proof fn lemma_escaped_is_one_line(s: Seq<char>)
    ensures
        is_one_line(escaped(s)),
    decreases s.len(),
{
    if s.len() > 0 {
        lemma_escaped_is_one_line(s.drop_last());
        lemma_escape_is_one_line(s.last());
    }
}

/// A field of an object: its name and, behind a colon, its value.
pub open spec fn field_of(name: Seq<char>, value: Seq<char>) -> Seq<char> {
    "\""@ + name + "\":"@ + value
}

fn field(name: &str, value: &str) -> (r: String)
    ensures
        r@ == field_of(name@, value@),
{
    "\"".to_owned().concat(name).concat("\":").concat(value)
}

/// An object of three fields with texts.
pub open spec fn object3_of(
    n1: Seq<char>,
    v1: Seq<char>,
    n2: Seq<char>,
    v2: Seq<char>,
    n3: Seq<char>,
    v3: Seq<char>,
) -> Seq<char> {
    "{"@ + field_of(n1, v1) + ","@ + field_of(n2, v2) + ","@ + field_of(n3, v3) + "}"@
}

/// An object of three fields, given their names and values.
pub fn object3(n1: &str, v1: &str, n2: &str, v2: &str, n3: &str, v3: &str) -> (r: String)
    ensures
        r@ == object3_of(n1@, v1@, n2@, v2@, n3@, v3@),
{
    "{".to_owned().concat(field(n1, v1).as_str()).concat(",").concat(
        field(n2, v2).as_str(),
    ).concat(",").concat(field(n3, v3).as_str()).concat("}")
}

/// An object of four fields.
pub open spec fn object4_of(
    n1: Seq<char>,
    v1: Seq<char>,
    n2: Seq<char>,
    v2: Seq<char>,
    n3: Seq<char>,
    v3: Seq<char>,
    n4: Seq<char>,
    v4: Seq<char>,
) -> Seq<char> {
    "{"@ + field_of(n1, v1) + ","@ + field_of(n2, v2) + ","@ + field_of(n3, v3) + ","@ + field_of(
        n4,
        v4,
    ) + "}"@
}

/// An object of four fields, given their names and values.
pub fn object4(
    n1: &str,
    v1: &str,
    n2: &str,
    v2: &str,
    n3: &str,
    v3: &str,
    n4: &str,
    v4: &str,
) -> (r: String)
    ensures
        r@ == object4_of(n1@, v1@, n2@, v2@, n3@, v3@, n4@, v4@),
{
    "{".to_owned().concat(field(n1, v1).as_str()).concat(",").concat(
        field(n2, v2).as_str(),
    ).concat(",").concat(field(n3, v3).as_str()).concat(",").concat(
        field(n4, v4).as_str(),
    ).concat("}")
}

// ── One object, one line ─────────────────────────────────────────────────────

proof fn lemma_concat_is_one_line(a: Seq<char>, b: Seq<char>)
    requires
        is_one_line(a),
        is_one_line(b),
    ensures
        is_one_line(a + b),
{
}

/// A JSON string stands on one line.
pub proof fn lemma_json_text_is_one_line(s: Seq<char>)
    ensures
        is_one_line(json_text(s)),
{
    reveal_strlit("\"");
    lemma_escaped_is_one_line(s);
    lemma_concat_is_one_line("\""@, escaped(s));
    lemma_concat_is_one_line("\""@ + escaped(s), "\""@);
}

proof fn lemma_field_is_one_line(name: Seq<char>, value: Seq<char>)
    requires
        is_one_line(name),
        is_one_line(value),
    ensures
        is_one_line(field_of(name, value)),
{
    reveal_strlit("\"");
    reveal_strlit("\":");
    lemma_concat_is_one_line("\""@, name);
    lemma_concat_is_one_line("\""@ + name, "\":"@);
    lemma_concat_is_one_line("\""@ + name + "\":"@, value);
}

/// An object of three fields stands on one line if its names and values do.
pub proof fn lemma_object3_is_one_line(
    n1: Seq<char>,
    v1: Seq<char>,
    n2: Seq<char>,
    v2: Seq<char>,
    n3: Seq<char>,
    v3: Seq<char>,
)
    requires
        is_one_line(n1) && is_one_line(v1),
        is_one_line(n2) && is_one_line(v2),
        is_one_line(n3) && is_one_line(v3),
    ensures
        is_one_line(object3_of(n1, v1, n2, v2, n3, v3)),
{
    reveal_strlit("{");
    reveal_strlit("}");
    reveal_strlit(",");
    lemma_field_is_one_line(n1, v1);
    lemma_field_is_one_line(n2, v2);
    lemma_field_is_one_line(n3, v3);
    let a = "{"@ + field_of(n1, v1);
    let b = a + ","@ + field_of(n2, v2);
    let c = b + ","@ + field_of(n3, v3);
    lemma_concat_is_one_line("{"@, field_of(n1, v1));
    lemma_concat_is_one_line(a, ","@);
    lemma_concat_is_one_line(a + ","@, field_of(n2, v2));
    lemma_concat_is_one_line(b, ","@);
    lemma_concat_is_one_line(b + ","@, field_of(n3, v3));
    lemma_concat_is_one_line(c, "}"@);
}

/// An object of four fields stands on one line if its names and values do.
pub proof fn lemma_object4_is_one_line(
    n1: Seq<char>,
    v1: Seq<char>,
    n2: Seq<char>,
    v2: Seq<char>,
    n3: Seq<char>,
    v3: Seq<char>,
    n4: Seq<char>,
    v4: Seq<char>,
)
    requires
        is_one_line(n1) && is_one_line(v1),
        is_one_line(n2) && is_one_line(v2),
        is_one_line(n3) && is_one_line(v3),
        is_one_line(n4) && is_one_line(v4),
    ensures
        is_one_line(object4_of(n1, v1, n2, v2, n3, v3, n4, v4)),
{
    reveal_strlit("{");
    reveal_strlit("}");
    reveal_strlit(",");
    lemma_field_is_one_line(n1, v1);
    lemma_field_is_one_line(n2, v2);
    lemma_field_is_one_line(n3, v3);
    lemma_field_is_one_line(n4, v4);
    let a = "{"@ + field_of(n1, v1);
    let b = a + ","@ + field_of(n2, v2);
    let c = b + ","@ + field_of(n3, v3);
    let d = c + ","@ + field_of(n4, v4);
    lemma_concat_is_one_line("{"@, field_of(n1, v1));
    lemma_concat_is_one_line(a, ","@);
    lemma_concat_is_one_line(a + ","@, field_of(n2, v2));
    lemma_concat_is_one_line(b, ","@);
    lemma_concat_is_one_line(b + ","@, field_of(n3, v3));
    lemma_concat_is_one_line(c, ","@);
    lemma_concat_is_one_line(c + ","@, field_of(n4, v4));
    lemma_concat_is_one_line(d, "}"@);
}

// ── Laws ─────────────────────────────────────────────────────────────────────

/// A text is written between quotes, its characters one by one: a quote, a backslash and
/// a control character are escaped, and every other character stands for itself.
pub proof fn law_texts_are_written_by_character(a: Seq<char>, c: char, b: Seq<char>)
    ensures
        escaped(a + b) == escaped(a) + escaped(b),
        c != '"' && c != '\\' && c as u32 >= 32 ==> escaped(seq![c]) == seq![c],
        c == '"' || c == '\\' ==> escaped(seq![c]) == seq!['\\', c],
        c == '\n' ==> escaped(seq![c]) == seq!['\\', 'n'],
        c == '\r' ==> escaped(seq![c]) == seq!['\\', 'r'],
        c == '\t' ==> escaped(seq![c]) == seq!['\\', 't'],
        escaped(Seq::<char>::empty()).len() == 0,
        json_text(a).len() == escaped(a).len() + 2,
        json_text(a)[0] == '"',
        json_text(a).last() == '"',
        json_text(a).subrange(1, json_text(a).len() - 1) == escaped(a),
    decreases b.len(),
{
    reveal_with_fuel(escaped, 2);
    reveal_strlit("\"");
    assert(seq![c].drop_last() == Seq::<char>::empty());
    assert(Seq::<char>::empty() + escape_of(c) == escape_of(c));
    assert(json_text(a).subrange(1, json_text(a).len() - 1) == escaped(a));
    if b.len() == 0 {
        assert(a + b == a);
        assert(escaped(a) + Seq::<char>::empty() == escaped(a));
    } else {
        law_texts_are_written_by_character(a, c, b.drop_last());
        assert((a + b).drop_last() == a + b.drop_last());
        assert(escaped(a) + (escaped(b.drop_last()) + escape_of(b.last())) == escaped(a) + escaped(
            b.drop_last(),
        ) + escape_of(b.last()));
    }
}

/// An object is written as its members in their order, each a quoted name, a colon and a
/// value, with commas between them and braces around them.
pub proof fn law_objects_are_written_by_member(
    n1: Seq<char>,
    v1: Seq<char>,
    n2: Seq<char>,
    v2: Seq<char>,
    n3: Seq<char>,
    v3: Seq<char>,
    n4: Seq<char>,
    v4: Seq<char>,
)
    ensures
        object3_of(n1, v1, n2, v2, n3, v3) == "{"@ + ("\""@ + n1 + "\":"@ + v1) + ","@ + ("\""@ + n2
            + "\":"@ + v2) + ","@ + ("\""@ + n3 + "\":"@ + v3) + "}"@,
        object4_of(n1, v1, n2, v2, n3, v3, n4, v4) == "{"@ + ("\""@ + n1 + "\":"@ + v1) + ","@ + (
        "\""@ + n2 + "\":"@ + v2) + ","@ + ("\""@ + n3 + "\":"@ + v3) + ","@ + ("\""@ + n4 + "\":"@
            + v4) + "}"@,
{
}

} // verus!
