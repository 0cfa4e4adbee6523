//! Texts in JSON.

use crate::crypto::hex_digit;
use crate::labels::{sorted_pairs, Labels};
use crate::text::{joined, texts};
use vstd::prelude::*;

verus! {

/// A character as it stands in a JSON string.
pub open spec fn json_char(c: char) -> Seq<char> {
    if c == '"' {
        seq!['\\', '"']
    } else if c == '\\' {
        seq!['\\', '\\']
    } else if c as u32 == 8 {
        seq!['\\', 'b']
    } else if c as u32 == 9 {
        seq!['\\', 't']
    } else if c as u32 == 10 {
        seq!['\\', 'n']
    } else if c as u32 == 12 {
        seq!['\\', 'f']
    } else if c as u32 == 13 {
        seq!['\\', 'r']
    } else if (c as u32) < 32 {
        seq!['\\', 'u', '0', '0', hex_digit(c as u32 as int / 16), hex_digit(c as u32 as int % 16)]
    } else {
        seq![c]
    }
}

pub open spec fn json_chars(s: Seq<char>) -> Seq<char>
    decreases s.len(),
{
    if s.len() == 0 {
        Seq::empty()
    } else {
        json_chars(s.drop_last()) + json_char(s.last())
    }
}

/// A text as a JSON string.
pub open spec fn json_string(s: Seq<char>) -> Seq<char> {
    seq!['"'] + json_chars(s) + seq!['"']
}

/// Calls `serde_json::to_string` on a text: quotes around it, and an escape for
/// each quote, backslash and control character.
#[verifier::external_body]
fn serde_json_string(s: &str) -> (r: String)
    ensures
        r@ == json_string(s@),
{
    serde_json::to_string(s).unwrap_or_default()
}

/// A text as a JSON string.
pub fn quoted(s: &str) -> (r: String)
    ensures
        r@ == json_string(s@),
{
    serde_json_string(s)
}

/// A map as a JSON object, in the order of the names.
pub open spec fn json_object(m: Map<Seq<char>, Seq<char>>) -> Seq<char> {
    "{"@ + joined(
        sorted_pairs(m).map_values(
            |p: (Seq<char>, Seq<char>)| json_string(p.0) + ":"@ + json_string(p.1),
        ),
        ","@,
    ) + "}"@
}

/// A map as a JSON object.
pub fn object(m: &Labels) -> (r: String)
    ensures
        r@ == json_object(m@),
{
    let n: usize = m.len();
    let ghost pairs = m.pairs();
    let ghost wanted = pairs.map_values(
        |p: (Seq<char>, Seq<char>)| json_string(p.0) + ":"@ + json_string(p.1),
    );
    let mut parts: Vec<String> = Vec::new();
    let mut i: usize = 0;
    while i < n
        invariant
            i <= n,
            n == pairs.len(),
            pairs == m.pairs(),
            wanted == pairs.map_values(
                |p: (Seq<char>, Seq<char>)| json_string(p.0) + ":"@ + json_string(p.1),
            ),
            texts(parts@) == wanted.take(i as int),
        decreases n - i,
    {
        let ghost before = parts@;
        let mut part = quoted(m.name_at(i).as_str());
        part.append(":");
        part.append(quoted(m.value_at(i).as_str()).as_str());
        assert(part@ == wanted[i as int]);
        parts.push(part);
        assert(texts(parts@) =~= texts(before).push(part@));
        i = i + 1;
        assert(texts(parts@) =~= wanted.take(i as int));
    }
    assert(wanted.take(n as int) =~= wanted);
    let mut out = "{".to_owned();
    out.append(crate::text::join(&parts, ",").as_str());
    out.append("}");
    out
}

// ── Laws ────────────────────────────────────────────────────────────

/// Text without quotes, backslashes and control characters is written as it is,
/// between quotes; those are escaped.
pub proof fn plain_text_is_written_as_it_is(s: Seq<char>, c: char)
    ensures
        (forall|i: int|
            0 <= i < s.len() ==> (#[trigger] s[i]) as u32 >= 32 && s[i] != '"' && s[i] != '\\')
            ==> json_string(s) == seq!['"'] + s + seq!['"'],
        json_char('"') == seq!['\\', '"'],
        json_char('\\') == seq!['\\', '\\'],
        json_char('\n') == seq!['\\', 'n'],
        json_char('\t') == seq!['\\', 't'],
        json_char('\r') == seq!['\\', 'r'],
        c as u32 >= 32 && c != '"' && c != '\\' ==> json_char(c) == seq![c],
        (c as u32) < 32 ==> json_char(c)[0] == '\\' && json_char(c).len() >= 2,
        json_chars(s.push(c)) == json_chars(s) + json_char(c),
    decreases s.len(),
{
    assert(s.push(c).drop_last() =~= s);
    if (forall|i: int|
        0 <= i < s.len() ==> (#[trigger] s[i]) as u32 >= 32 && s[i] != '"' && s[i] != '\\') {
        plain_chars(s);
    }
}

proof fn plain_chars(s: Seq<char>)
    requires
        forall|i: int|
            0 <= i < s.len() ==> (#[trigger] s[i]) as u32 >= 32 && s[i] != '"' && s[i] != '\\',
    ensures
        json_chars(s) == s,
    decreases s.len(),
{
    if s.len() > 0 {
        assert(s[s.len() - 1] == s.last());
        assert forall|i: int| 0 <= i < s.drop_last().len() implies (#[trigger] s.drop_last()[i]) as u32
            >= 32 && s.drop_last()[i] != '"' && s.drop_last()[i] != '\\' by {
            assert(s.drop_last()[i] == s[i]);
        }
        plain_chars(s.drop_last());
        assert(s.drop_last() + seq![s.last()] =~= s);
    } else {
        assert(json_chars(s) =~= s);
    }
}

/// An object is its pairs between braces: none is `{}`, one its name and its value
/// with a colon between them.
pub proof fn objects_hold_their_pairs(k: Seq<char>, v: Seq<char>)
    ensures
        json_object(Map::empty()) == "{}"@,
        json_object(Map::<Seq<char>, Seq<char>>::empty().insert(k, v)) == "{"@ + json_string(k)
            + ":"@ + json_string(v) + "}"@,
{
    reveal_strlit("{}");
    reveal_strlit("{");
    reveal_strlit("}");
    let none = Seq::<(Seq<char>, Seq<char>)>::empty();
    let one = seq![(k, v)];
    crate::labels::sorted_pairs_unique(none);
    crate::labels::sorted_pairs_unique(one);
    assert(one.drop_last() =~= none);
    assert(crate::labels::as_map(none) =~= Map::<Seq<char>, Seq<char>>::empty());
    assert(crate::labels::as_map(one) =~= Map::<Seq<char>, Seq<char>>::empty().insert(k, v));
    let written = |p: (Seq<char>, Seq<char>)| json_string(p.0) + ":"@ + json_string(p.1);
    assert(none.map_values(written) =~= Seq::<Seq<char>>::empty());
    assert(one.map_values(written) =~= seq![json_string(k) + ":"@ + json_string(v)]);
    assert(json_object(Map::empty()) =~= "{}"@);
    assert(json_object(Map::<Seq<char>, Seq<char>>::empty().insert(k, v)) =~= "{"@ + json_string(k)
        + ":"@ + json_string(v) + "}"@);
}

} // verus!
