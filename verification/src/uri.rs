//! `encodeURIComponent`, as the browser applies it to the paths put in
//! request URLs: the UTF-8 bytes of every character outside
//! `A-Z a-z 0-9 - _ . ! ~ * ' ( )` become `%XX` with upper-case hex digits.
use vstd::prelude::*;
use vstd::utf8::encode_utf8;

use crate::text::{chars_of, extend_chars, join_with, split_chars, split_on, string_of};

verus! {

/// The bytes left as they are.
pub open spec fn is_unreserved(b: u8) -> bool {
    (0x41 <= b && b <= 0x5a) || (0x61 <= b && b <= 0x7a) || (0x30 <= b && b <= 0x39) || b == 0x2d
        || b == 0x5f || b == 0x2e || b == 0x21 || b == 0x7e || b == 0x2a || b == 0x27 || b == 0x28
        || b == 0x29
}

pub open spec fn hex_digit(d: u8) -> char
    recommends
        d < 16,
{
    if d < 10 {
        (0x30 + d) as char
    } else {
        (0x41 + d - 10) as char
    }
}

pub open spec fn encode_byte(b: u8) -> Seq<char> {
    if is_unreserved(b) {
        seq![b as char]
    } else {
        seq!['%', hex_digit(b / 16), hex_digit(b % 16)]
    }
}

pub open spec fn encode_bytes(bytes: Seq<u8>) -> Seq<char>
    decreases bytes.len(),
{
    if bytes.len() == 0 {
        Seq::empty()
    } else {
        encode_bytes(bytes.drop_last()) + encode_byte(bytes.last())
    }
}

/// `encodeURIComponent` of a string.
pub open spec fn spec_encode_uri_component(s: Seq<char>) -> Seq<char> {
    encode_bytes(encode_utf8(s))
}

/// The characters an encoded component is made of: the unreserved ones,
/// and `%` with the hex digits of escapes.
pub open spec fn uri_char(c: char) -> bool {
    ('A' <= c && c <= 'Z') || ('a' <= c && c <= 'z') || ('0' <= c && c <= '9') || c == '-' || c
        == '_' || c == '.' || c == '!' || c == '~' || c == '*' || c == '\'' || c == '(' || c == ')'
        || c == '%'
}

proof fn lemma_encode_bytes_alphabet(bytes: Seq<u8>)
    ensures
        forall|i: int|
            0 <= i < encode_bytes(bytes).len() ==> uri_char(#[trigger] encode_bytes(bytes)[i]),
    decreases bytes.len(),
{
    if bytes.len() > 0 {
        lemma_encode_bytes_alphabet(bytes.drop_last());
        let b = bytes.last();
        let prev = encode_bytes(bytes.drop_last());
        let e = encode_byte(b);
        assert forall|i: int| 0 <= i < e.len() implies uri_char(#[trigger] e[i]) by {
            if !is_unreserved(b) {
                assert(b / 16 < 16);
                assert(b % 16 < 16);
            }
        }
        assert forall|i: int| 0 <= i < encode_bytes(bytes).len() implies uri_char(
            #[trigger] encode_bytes(bytes)[i],
        ) by {
            if i < prev.len() {
                assert(encode_bytes(bytes)[i] == prev[i]);
            } else {
                assert(encode_bytes(bytes)[i] == e[i - prev.len()]);
            }
        }
    }
}

/// An encoded component holds only unreserved characters and `%` escapes,
/// so no `/`, `?`, `&`, `=`, `#` or space of the text reaches the address.
pub proof fn lemma_encoded_alphabet(s: Seq<char>)
    ensures
        forall|i: int|
            0 <= i < spec_encode_uri_component(s).len() ==> uri_char(
                #[trigger] spec_encode_uri_component(s)[i],
            ),
{
    lemma_encode_bytes_alphabet(encode_utf8(s));
}

fn hex_char(d: u8) -> (c: char)
    requires
        d < 16,
    ensures
        c == hex_digit(d),
{
    if d < 10 {
        (0x30 + d) as char
    } else {
        (0x41 + d - 10) as char
    }
}

fn is_unreserved_byte(b: u8) -> (r: bool)
    ensures
        r == is_unreserved(b),
{
    (0x41 <= b && b <= 0x5a) || (0x61 <= b && b <= 0x7a) || (0x30 <= b && b <= 0x39) || b == 0x2d
        || b == 0x5f || b == 0x2e || b == 0x21 || b == 0x7e || b == 0x2a || b == 0x27 || b == 0x28
        || b == 0x29
}

pub(crate) fn encode_chars(s: &str) -> (r: Vec<char>)
    ensures
        r@ == spec_encode_uri_component(s@),
{
    let bytes = s.as_bytes();
    let ghost bs = bytes@;
    assert(bs == encode_utf8(s@));
    let mut out: Vec<char> = Vec::new();
    let mut i: usize = 0;
    assert(bs.take(0) =~= Seq::<u8>::empty());
    while i < bytes.len()
        invariant
            0 <= i <= bytes.len(),
            bs == bytes@,
            out@ == encode_bytes(bs.take(i as int)),
        decreases bytes.len() - i,
    {
        let b = bytes[i];
        assert(bs.take(i + 1).drop_last() =~= bs.take(i as int));
        if is_unreserved_byte(b) {
            out.push(b as char);
        } else {
            out.push('%');
            out.push(hex_char(b / 16));
            out.push(hex_char(b % 16));
        }
        i = i + 1;
        assert(out@ =~= encode_bytes(bs.take(i as int)));
    }
    assert(bs.take(bs.len() as int) =~= bs);
    out
}

/// `encodeURIComponent(s)`.
pub fn encode_uri_component(s: &str) -> (r: String)
    ensures
        r@ == spec_encode_uri_component(s@),
{
    string_of(&encode_chars(s))
}

/// Each `/`-separated part of a path encoded, the `/` kept.
pub open spec fn spec_encode_path(path: Seq<char>) -> Seq<char> {
    join_with(split_on(path, '/').map_values(|p: Seq<char>| spec_encode_uri_component(p)), seq!['/'])
}

pub(crate) fn encode_path_chars(path: &Vec<char>) -> (r: Vec<char>)
    ensures
        r@ == spec_encode_path(path@),
{
    let parts = split_chars(path, '/');
    let ghost enc = split_on(path@, '/').map_values(|p: Seq<char>| spec_encode_uri_component(p));
    let mut r: Vec<char> = Vec::new();
    let mut k: usize = 0;
    assert(enc.take(0) =~= Seq::<Seq<char>>::empty());
    while k < parts.len()
        invariant
            0 <= k <= parts.len(),
            parts@.len() == split_on(path@, '/').len(),
            forall|m: int| 0 <= m < parts@.len() ==> #[trigger] parts@[m]@ == split_on(path@, '/')[m],
            enc == split_on(path@, '/').map_values(|p: Seq<char>| spec_encode_uri_component(p)),
            r@ == join_with(enc.take(k as int), seq!['/']),
        decreases parts.len() - k,
    {
        assert(enc.take(k + 1).drop_last() =~= enc.take(k as int));
        if k > 0 {
            r.push('/');
        }
        let piece = string_of(&parts[k]);
        extend_chars(&mut r, &encode_chars(piece.as_str()));
        k = k + 1;
        proof {
            if k == 1 {
                assert(enc.take(1) =~= seq![enc[0]]);
                assert(r@ =~= enc[0]);
            }
        }
    }
    assert(enc.take(parts.len() as int) =~= enc);
    r
}

} // verus!
