//! The JSON text of request bodies: strings are quoted by `serde_json`, and
//! arrays, `null`, booleans and objects are framed around them here.
use vstd::prelude::*;

use crate::text::{chars_of, extend_chars, lit};

verus! {

/// A lower-case hex digit.
pub open spec fn lower_hex(d: u32) -> char
    recommends
        d < 16,
{
    if d < 10 {
        (0x30 + d) as char
    } else {
        (0x61 + d - 10) as char
    }
}

/// How one character stands inside a JSON string: `"` and `\` and the
/// control characters are escaped (the short forms where JSON has one,
/// `\u00xx` otherwise); every other character stands as it is.
pub open spec fn json_escape(c: char) -> Seq<char> {
    let u = c as u32;
    if c == '"' {
        seq!['\\', '"']
    } else if c == '\\' {
        seq!['\\', '\\']
    } else if u == 0x08 {
        seq!['\\', 'b']
    } else if u == 0x09 {
        seq!['\\', 't']
    } else if u == 0x0a {
        seq!['\\', 'n']
    } else if u == 0x0c {
        seq!['\\', 'f']
    } else if u == 0x0d {
        seq!['\\', 'r']
    } else if u < 0x20 {
        seq!['\\', 'u', '0', '0', lower_hex(u / 16), lower_hex(u % 16)]
    } else {
        seq![c]
    }
}

pub open spec fn json_escaped(s: Seq<char>) -> Seq<char>
    decreases s.len(),
{
    if s.len() == 0 {
        Seq::empty()
    } else {
        json_escaped(s.drop_last()) + json_escape(s.last())
    }
}

/// A string as a JSON string literal.
pub open spec fn json_quoted(s: Seq<char>) -> Seq<char> {
    seq!['"'] + json_escaped(s) + seq!['"']
}

/// `serde_json::to_string` of a `str`: the string quoted, with the escapes of
/// `json_escape` (serde_json's `ESCAPE` table and `write_char_escape`).
/// Writing into a `Vec` cannot fail, so the error arm is never taken.
#[verifier::external_body]
fn json_string(s: &str) -> (r: String)
    ensures
        r@ == json_quoted(s@),
{
    match serde_json::to_string(s) {
        Ok(j) => j,
        Err(_) => String::new(),
    }
}

/// Appends the JSON string literal of `s`.
pub(crate) fn push_json_str(out: &mut Vec<char>, s: &str)
    ensures
        final(out)@ == old(out)@ + json_quoted(s@),
{
    let q = json_string(s);
    extend_chars(out, &chars_of(q.as_str()));
}

/// Quoted strings separated by commas.
pub open spec fn json_items(items: Seq<Seq<char>>) -> Seq<char>
    decreases items.len(),
{
    if items.len() == 0 {
        Seq::empty()
    } else if items.len() == 1 {
        json_quoted(items[0])
    } else {
        json_items(items.drop_last()) + seq![','] + json_quoted(items.last())
    }
}

/// A JSON array of strings.
pub open spec fn json_array(items: Seq<Seq<char>>) -> Seq<char> {
    seq!['['] + json_items(items) + seq![']']
}

pub open spec fn json_opt_str(o: Option<Seq<char>>) -> Seq<char> {
    match o {
        Some(s) => json_quoted(s),
        None => "null"@,
    }
}

pub open spec fn json_opt_array(o: Option<Seq<Seq<char>>>) -> Seq<char> {
    match o {
        Some(v) => json_array(v),
        None => "null"@,
    }
}

pub open spec fn json_bool(b: bool) -> Seq<char> {
    if b {
        "true"@
    } else {
        "false"@
    }
}

pub open spec fn json_opt_bool(o: Option<bool>) -> Seq<char> {
    match o {
        Some(b) => json_bool(b),
        None => "null"@,
    }
}

pub open spec fn string_views(v: Seq<String>) -> Seq<Seq<char>> {
    v.map_values(|s: String| s@)
}

pub open spec fn opt_string_view(o: Option<String>) -> Option<Seq<char>> {
    match o {
        Some(s) => Some(s@),
        None => None,
    }
}

pub open spec fn opt_strings_view(o: Option<Vec<String>>) -> Option<Seq<Seq<char>>> {
    match o {
        Some(v) => Some(string_views(v@)),
        None => None,
    }
}

/// Appends a JSON array of the strings.
pub(crate) fn push_json_array(out: &mut Vec<char>, v: &Vec<String>)
    ensures
        final(out)@ == old(out)@ + json_array(string_views(v@)),
{
    let ghost items = string_views(v@);
    let ghost start = out@;
    out.push('[');
    let mut k: usize = 0;
    assert(items.take(0) =~= Seq::<Seq<char>>::empty());
    while k < v.len()
        invariant
            0 <= k <= v.len(),
            items == string_views(v@),
            out@ == start + seq!['['] + json_items(items.take(k as int)),
        decreases v.len() - k,
    {
        assert(items.take(k + 1).drop_last() =~= items.take(k as int));
        if k > 0 {
            out.push(',');
        }
        push_json_str(out, v[k].as_str());
        k = k + 1;
        proof {
            if k == 1 {
                assert(items.take(1) =~= seq![items[0]]);
            }
        }
        assert(out@ =~= start + seq!['['] + json_items(items.take(k as int)));
    }
    assert(items.take(v.len() as int) =~= items);
    out.push(']');
    assert(out@ =~= start + json_array(items));
}

pub(crate) fn push_json_opt_str(out: &mut Vec<char>, o: &Option<String>)
    ensures
        final(out)@ == old(out)@ + json_opt_str(opt_string_view(*o)),
{
    match o {
        Some(s) => push_json_str(out, s.as_str()),
        None => extend_chars(out, &lit("null")),
    }
}

pub(crate) fn push_json_opt_array(out: &mut Vec<char>, o: &Option<Vec<String>>)
    ensures
        final(out)@ == old(out)@ + json_opt_array(opt_strings_view(*o)),
{
    match o {
        Some(v) => push_json_array(out, v),
        None => extend_chars(out, &lit("null")),
    }
}

pub(crate) fn push_json_bool(out: &mut Vec<char>, b: bool)
    ensures
        final(out)@ == old(out)@ + json_bool(b),
{
    if b {
        extend_chars(out, &lit("true"))
    } else {
        extend_chars(out, &lit("false"))
    }
}

pub(crate) fn push_json_opt_bool(out: &mut Vec<char>, o: Option<bool>)
    ensures
        final(out)@ == old(out)@ + json_opt_bool(o),
{
    match o {
        Some(b) => push_json_bool(out, b),
        None => extend_chars(out, &lit("null")),
    }
}

} // verus!
