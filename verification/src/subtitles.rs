//! Subtitles of the video player: which cues of a WebVTT text are shown for
//! the chosen mode, the language sections of a `.vsub` file, and the URLs
//! the subtitle files are fetched from.
use vstd::prelude::*;

use crate::number::{all_digits, digit_value, digits_value, is_digit, is_digit_char};
use crate::text::{
    chars_of, contains_chars, contains_sub, eq_chars, extend_chars, find_chars, find_sub,
    join_vecs, join_with, last_index, last_index_of, lit, slice_chars, split_chars, split_on,
    split_str, split_str_chars, string_of, views,
};
use crate::json::string_views;
use crate::uri::{encode_chars, spec_encode_uri_component};

verus! {

// ---------------------------------------------------------------------------
// The `line:` setting of a cue
// ---------------------------------------------------------------------------

pub open spec fn is_num_char(c: char) -> bool {
    is_digit(c) || c == '.'
}

/// The leading run of digits and dots.
pub open spec fn num_prefix_len(s: Seq<char>) -> nat
    decreases s.len(),
{
    if s.len() > 0 && is_num_char(s[0]) {
        1 + num_prefix_len(s.drop_first())
    } else {
        0
    }
}

pub open spec fn dot_count(s: Seq<char>) -> nat
    decreases s.len(),
{
    if s.len() == 0 {
        0
    } else {
        dot_count(s.drop_last()) + if s.last() == '.' {
            1nat
        } else {
            0nat
        }
    }
}

/// Digits and dots that std's `str::parse::<f32>` accepts: at most one dot
/// and at least one digit.
pub open spec fn f32_syntax(t: Seq<char>) -> bool {
    (forall|i: int| 0 <= i < t.len() ==> is_num_char(#[trigger] t[i])) && dot_count(t) <= 1
        && exists|i: int| 0 <= i < t.len() && is_digit(#[trigger] t[i])
}

/// The digits before the dot, and after it.
pub open spec fn int_part(t: Seq<char>) -> Seq<char> {
    match find_sub(t, seq!['.']) {
        Some(i) => t.take(i),
        None => t,
    }
}

pub open spec fn frac_part(t: Seq<char>) -> Seq<char> {
    match find_sub(t, seq!['.']) {
        Some(i) => t.skip(i + 1),
        None => Seq::empty(),
    }
}

/// `0.f < 0.t`, both written in decimal digits.
pub open spec fn frac_below(f: Seq<char>, t: Seq<char>) -> bool
    decreases t.len(),
{
    if t.len() == 0 {
        false
    } else if f.len() == 0 {
        exists|i: int| 0 <= i < t.len() && t[i] != '0'
    } else if digit_value(f[0]) < digit_value(t[0]) {
        true
    } else if digit_value(f[0]) > digit_value(t[0]) {
        false
    } else {
        frac_below(f.drop_first(), t.drop_first())
    }
}

/// The digits after `49.` of the least decimal that rounds to `50.0` as an
/// `f32`: `50 - 2^-19`, the midpoint below 50, rounds to the even 50.
pub open spec fn top_threshold_frac() -> Seq<char> {
    "9999980926513671875"@
}

/// Whether a `line:` value is in the upper half of the screen: its `f32`
/// value is below 50.
pub open spec fn below_fifty(t: Seq<char>) -> bool {
    let ip = digits_value(int_part(t));
    ip < 49 || (ip == 49 && frac_below(frac_part(t), top_threshold_frac()))
}

/// `Some(top)` when the value parses as an `f32`, `None` otherwise.
pub open spec fn spec_line_top(num: Seq<char>) -> Option<bool> {
    if f32_syntax(num) {
        Some(below_fifty(num))
    } else {
        None
    }
}

/// Whether a cue has a position, and whether it is at the top: a `line:`
/// setting gives both (when its number parses), else an `{\an7}`, `{\an8}`
/// or `{\an9}` tag puts the cue at the top.
pub open spec fn cue_position(ts: Seq<char>) -> (bool, bool) {
    let an = contains_sub(ts, "{\\an7}"@) || contains_sub(ts, "{\\an8}"@) || contains_sub(
        ts,
        "{\\an9}"@,
    );
    match find_sub(ts, "line:"@) {
        Some(i) => {
            let rest = ts.skip(i + 5);
            match spec_line_top(rest.take(num_prefix_len(rest) as int)) {
                Some(t) => (true, t),
                None => (true, an),
            }
        },
        None => (an, an),
    }
}

// ---------------------------------------------------------------------------
// Filtering the cues
// ---------------------------------------------------------------------------

/// Index of the first line that holds `-->`.
pub open spec fn first_cue(lines: Seq<Seq<char>>) -> Option<int>
    decreases lines.len(),
{
    if lines.len() == 0 {
        None
    } else if contains_sub(lines[0], "-->"@) {
        Some(0)
    } else {
        match first_cue(lines.drop_first()) {
            Some(i) => Some(i + 1),
            None => None,
        }
    }
}

/// What a block becomes for mode 1 (both lines), 2 (top only) or 3 (bottom
/// only): `None` drops it. A positioned cue is kept or dropped whole; an
/// unpositioned one keeps its first text line for mode 2 and its last for
/// mode 3, and one with a single text line is dropped in mode 2.
pub open spec fn block_result(block: Seq<char>, mode: u8) -> Option<Seq<char>> {
    let lines = split_on(block, '\n');
    let nl = seq!['\n'];
    match first_cue(lines) {
        Some(c) => if c + 1 < lines.len() {
            let ts = lines[c];
            let tl = lines.skip(c + 1);
            let (hp, top) = cue_position(ts);
            if hp {
                if (mode == 2 && !top) || (mode == 3 && top) {
                    None
                } else {
                    Some(join_with(lines, nl))
                }
            } else if tl.len() >= 2 {
                if mode == 2 {
                    Some(join_with(lines.take(c + 1).push(tl[0]), nl))
                } else if mode == 3 {
                    Some(join_with(lines.take(c + 1).push(tl.last()), nl))
                } else {
                    Some(join_with(lines, nl))
                }
            } else if mode == 2 {
                None
            } else {
                Some(join_with(lines, nl))
            }
        } else {
            Some(join_with(lines, nl))
        },
        None => Some(join_with(lines, nl)),
    }
}

/// Mode 1 (both lines) keeps every block as it is.
pub proof fn lemma_mode_one_keeps(block: Seq<char>)
    ensures
        block_result(block, 1) == Some(block),
{
    crate::text::lemma_split_join(block, '\n');
}

/// The kept blocks, each followed by a blank line; empty blocks vanish.
pub open spec fn assemble(blocks: Seq<Seq<char>>, mode: u8) -> Seq<char>
    decreases blocks.len(),
{
    if blocks.len() == 0 {
        Seq::empty()
    } else {
        let prev = assemble(blocks.drop_last(), mode);
        let b = blocks.last();
        if b.len() == 0 {
            prev
        } else {
            match block_result(b, mode) {
                Some(o) => prev + o + seq!['\n', '\n'],
                None => prev,
            }
        }
    }
}

/// The subtitle text shown for `mode`: the blocks between blank lines,
/// filtered.
pub open spec fn spec_filter_vtt(text: Seq<char>, mode: u8) -> Seq<char> {
    assemble(split_str(text, seq!['\n', '\n']), mode)
}

/// The URL of the subtitle track: none when there is no text or subtitles
/// are off (mode 0), else a `data:` URI of the filtered text.
pub open spec fn spec_track_url(text: Seq<char>, mode: u8) -> Seq<char> {
    if text.len() == 0 || mode == 0 {
        Seq::empty()
    } else {
        "data:text/vtt;charset=utf-8,"@ + spec_encode_uri_component(spec_filter_vtt(text, mode))
    }
}

proof fn lemma_first_cue(lines: Seq<Seq<char>>, k: int)
    requires
        0 <= k <= lines.len(),
        forall|j: int| 0 <= j < k ==> !contains_sub(#[trigger] lines[j], "-->"@),
    ensures
        k < lines.len() && contains_sub(lines[k], "-->"@) ==> first_cue(lines) == Some(k),
        k == lines.len() ==> first_cue(lines) is None,
    decreases k,
{
    if k > 0 {
        assert forall|j: int| 0 <= j < k - 1 implies !contains_sub(
            #[trigger] lines.drop_first()[j],
            "-->"@,
        ) by {
            assert(lines.drop_first()[j] == lines[j + 1]);
        }
        lemma_first_cue(lines.drop_first(), k - 1);
    }
}

fn first_cue_exec(lines: &Vec<Vec<char>>) -> (r: Option<usize>)
    ensures
        match r {
            Some(c) => first_cue(views(lines@)) == Some(c as int) && c < lines.len(),
            None => first_cue(views(lines@)) is None,
        },
{
    let arrow = lit("-->");
    let ghost ls = views(lines@);
    let mut k: usize = 0;
    while k < lines.len()
        invariant
            0 <= k <= lines.len(),
            arrow@ == "-->"@,
            ls == views(lines@),
            forall|j: int| 0 <= j < k ==> !contains_sub(#[trigger] ls[j], "-->"@),
        decreases lines.len() - k,
    {
        if contains_chars(&lines[k], &arrow) {
            proof {
                lemma_first_cue(ls, k as int);
            }
            return Some(k);
        }
        k = k + 1;
    }
    proof {
        lemma_first_cue(ls, k as int);
    }
    None
}

fn num_prefix(s: &Vec<char>, from: usize) -> (r: Vec<char>)
    requires
        from <= s.len(),
    ensures
        r@ == s@.skip(from as int).take(num_prefix_len(s@.skip(from as int)) as int),
{
    let ghost rest = s@.skip(from as int);
    let mut k: usize = from;
    while k < s.len() && (is_digit_char(s[k]) || s[k] == '.')
        invariant
            from <= k <= s.len(),
            rest == s@.skip(from as int),
            forall|j: int| 0 <= j < k - from ==> is_num_char(#[trigger] rest[j]),
        decreases s.len() - k,
    {
        k = k + 1;
    }
    proof {
        lemma_num_prefix_len(rest, (k - from) as int);
    }
    let r = slice_chars(s, from, k);
    assert(r@ =~= rest.take((k - from) as int));
    r
}

proof fn lemma_num_prefix_len(s: Seq<char>, k: int)
    requires
        0 <= k <= s.len(),
        forall|j: int| 0 <= j < k ==> is_num_char(#[trigger] s[j]),
        k == s.len() || !is_num_char(s[k]),
    ensures
        num_prefix_len(s) == k,
    decreases k,
{
    if k > 0 {
        assert forall|j: int| 0 <= j < k - 1 implies is_num_char(#[trigger] s.drop_first()[j]) by {
            assert(s.drop_first()[j] == s[j + 1]);
        }
        lemma_num_prefix_len(s.drop_first(), k - 1);
    }
}

fn dot_count_exec(t: &Vec<char>) -> (r: usize)
    ensures
        r == dot_count(t@),
        r <= t.len(),
{
    let mut c: usize = 0;
    let mut k: usize = 0;
    assert(t@.take(0) =~= Seq::<char>::empty());
    while k < t.len()
        invariant
            0 <= k <= t.len(),
            c == dot_count(t@.take(k as int)),
            c <= k,
        decreases t.len() - k,
    {
        assert(t@.take(k + 1).drop_last() =~= t@.take(k as int));
        if t[k] == '.' {
            c = c + 1;
        }
        k = k + 1;
    }
    assert(t@.take(t.len() as int) =~= t@);
    c
}

/// Whether a string of digits and dots parses as an `f32`.
fn f32_syntax_exec(t: &Vec<char>) -> (r: bool)
    ensures
        r == f32_syntax(t@),
{
    let mut k: usize = 0;
    let mut has_digit = false;
    while k < t.len()
        invariant
            0 <= k <= t.len(),
            forall|j: int| 0 <= j < k ==> is_num_char(#[trigger] t@[j]),
            has_digit == exists|j: int| 0 <= j < k && is_digit(#[trigger] t@[j]),
        decreases t.len() - k,
    {
        if !(is_digit_char(t[k]) || t[k] == '.') {
            return false;
        }
        if is_digit_char(t[k]) {
            has_digit = true;
        }
        k = k + 1;
    }
    has_digit && dot_count_exec(t) <= 1
}

/// `min(digits_value(s), 50)` for a sequence of digits.
fn capped_value(s: &Vec<char>) -> (r: u64)
    requires
        all_digits(s@),
    ensures
        r == if digits_value(s@) < 50 {
            digits_value(s@)
        } else {
            50
        },
{
    let mut acc: u64 = 0;
    let mut k: usize = 0;
    assert(s@.take(0) =~= Seq::<char>::empty());
    while k < s.len()
        invariant
            0 <= k <= s.len(),
            all_digits(s@),
            acc == if digits_value(s@.take(k as int)) < 50 {
                digits_value(s@.take(k as int))
            } else {
                50
            },
        decreases s.len() - k,
    {
        assert(s@.take(k + 1).drop_last() =~= s@.take(k as int));
        assert(is_digit(s@[k as int]));
        let d = (s[k] as u32 - '0' as u32) as u64;
        let next = acc * 10 + d;
        acc = if next < 50 {
            next
        } else {
            50
        };
        k = k + 1;
    }
    assert(s@.take(s.len() as int) =~= s@);
    acc
}

fn frac_below_exec(f: &Vec<char>, t: &Vec<char>) -> (r: bool)
    requires
        all_digits(f@),
        all_digits(t@),
    ensures
        r == frac_below(f@, t@),
{
    let mut k: usize = 0;
    assert(f@.skip(0) =~= f@);
    assert(t@.skip(0) =~= t@);
    while k < t.len()
        invariant
            0 <= k <= t.len(),
            all_digits(f@),
            all_digits(t@),
            k <= f.len(),
            frac_below(f@, t@) == frac_below(f@.skip(k as int), t@.skip(k as int)),
        decreases t.len() - k,
    {
        if k == f.len() {
            let mut m: usize = k;
            while m < t.len()
                invariant
                    k <= m <= t.len(),
                    k == f.len(),
                    k < t.len(),
                    frac_below(f@, t@) == frac_below(f@.skip(k as int), t@.skip(k as int)),
                    forall|j: int| k <= j < m ==> t@[j] == '0',
                decreases t.len() - m,
            {
                if t[m] != '0' {
                    assert(t@.skip(k as int)[m - k] != '0');
                    return true;
                }
                m = m + 1;
            }
            assert forall|i: int| 0 <= i < t@.skip(k as int).len() implies t@.skip(k as int)[i]
                == '0' by {
                assert(t@.skip(k as int)[i] == t@[k + i]);
            }
            return false;
        }
        let a = (f[k] as u32 - '0' as u32);
        let b = (t[k] as u32 - '0' as u32);
        assert(f@.skip(k as int)[0] == f@[k as int]);
        assert(t@.skip(k as int)[0] == t@[k as int]);
        if a < b {
            return true;
        }
        if a > b {
            return false;
        }
        assert(f@.skip(k as int).drop_first() =~= f@.skip(k + 1));
        assert(t@.skip(k as int).drop_first() =~= t@.skip(k + 1));
        k = k + 1;
    }
    false
}

fn line_top_exec(num: &Vec<char>) -> (r: Option<bool>)
    ensures
        r == spec_line_top(num@),
{
    if !f32_syntax_exec(num) {
        return None;
    }
    let dot = lit(".");
    proof {
        reveal_strlit(".");
        assert(dot@ =~= seq!['.']);
    }
    let (ip, fp) = match find_chars(num, &dot) {
        Some(i) => {
            proof {
                crate::text::lemma_find_sub(num@, seq!['.']);
                assert(crate::text::occurs_at(num@, seq!['.'], i as int));
                assert(num@.subrange(i as int, i + 1)[0] == num@[i as int]);
            }
            assert(i < num.len());
            (slice_chars(num, 0, i), slice_chars(num, i + 1, num.len()))
        },
        None => (num.clone(), Vec::new()),
    };
    proof {
        crate::text::lemma_find_sub(num@, seq!['.']);
        match find_sub(num@, seq!['.']) {
            Some(i) => {
                assert(ip@ =~= num@.take(i));
                assert(fp@ =~= num@.skip(i + 1));
                assert(crate::text::occurs_at(num@, seq!['.'], i));
                assert(num@.subrange(i, i + 1)[0] == num@[i]);
                assert(num@[i] == '.');
                assert forall|j: int| 0 <= j < ip@.len() implies is_digit(#[trigger] ip@[j]) by {
                    assert(ip@[j] == num@[j]);
                    if num@[j] == '.' {
                        assert(crate::text::occurs_at(num@, seq!['.'], j)) by {
                            assert(num@.subrange(j, j + 1) =~= seq!['.']);
                        }
                    }
                }
                assert forall|j: int| 0 <= j < fp@.len() implies is_digit(#[trigger] fp@[j]) by {
                    assert(fp@[j] == num@[i + 1 + j]);
                    lemma_single_dot(num@, i, i + 1 + j);
                }
            },
            None => {
                assert forall|j: int| 0 <= j < ip@.len() implies is_digit(#[trigger] ip@[j]) by {
                    if num@[j] == '.' {
                        assert(crate::text::occurs_at(num@, seq!['.'], j)) by {
                            assert(num@.subrange(j, j + 1) =~= seq!['.']);
                        }
                    }
                }
            },
        }
    }
    let iv = capped_value(&ip);
    let thresh = lit("9999980926513671875");
    proof {
        reveal_strlit("9999980926513671875");
        assert forall|j: int| 0 <= j < thresh@.len() implies is_digit(#[trigger] thresh@[j]) by {}
    }
    let top = iv < 49 || (iv == 49 && frac_below_exec(&fp, &thresh));
    Some(top)
}

/// In a sequence with at most one dot, nothing after the first dot is one.
proof fn lemma_single_dot(s: Seq<char>, i: int, j: int)
    requires
        0 <= i < j < s.len(),
        s[i] == '.',
        dot_count(s) <= 1,
        forall|k: int| 0 <= k < s.len() ==> is_num_char(#[trigger] s[k]),
    ensures
        is_digit(s[j]),
{
    lemma_dot_count_two(s, i, j);
}

proof fn lemma_dot_count_two(s: Seq<char>, i: int, j: int)
    requires
        0 <= i < j < s.len(),
        s[i] == '.',
    ensures
        s[j] == '.' ==> dot_count(s) >= 2,
    decreases s.len(),
{
    if j < s.len() - 1 {
        assert(s.drop_last()[i] == s[i]);
        assert(s.drop_last()[j] == s[j]);
        lemma_dot_count_two(s.drop_last(), i, j);
    } else if s[j] == '.' {
        lemma_dot_count_pos(s.drop_last(), i);
    }
}

proof fn lemma_dot_count_pos(s: Seq<char>, i: int)
    requires
        0 <= i < s.len(),
        s[i] == '.',
    ensures
        dot_count(s) >= 1,
    decreases s.len(),
{
    if i < s.len() - 1 {
        assert(s.drop_last()[i] == s[i]);
        lemma_dot_count_pos(s.drop_last(), i);
    }
}

fn cue_position_exec(ts: &Vec<char>) -> (r: (bool, bool))
    ensures
        r == cue_position(ts@),
{
    let an7 = lit("{\\an7}");
    let an8 = lit("{\\an8}");
    let an9 = lit("{\\an9}");
    let an = contains_chars(ts, &an7) || contains_chars(ts, &an8) || contains_chars(ts, &an9);
    let line = lit("line:");
    proof {
        reveal_strlit("line:");
    }
    match find_chars(ts, &line) {
        Some(i) => {
            proof {
                crate::text::lemma_find_sub(ts@, "line:"@);
                assert(crate::text::occurs_at(ts@, "line:"@, i as int));
            }
            assert(i + 5 <= ts.len());
            let num = num_prefix(ts, i + 5);
            match line_top_exec(&num) {
                Some(t) => (true, t),
                None => (true, an),
            }
        },
        None => (an, an),
    }
}

fn block_result_exec(block: &Vec<char>, mode: u8) -> (r: Option<Vec<char>>)
    ensures
        match r {
            Some(v) => block_result(block@, mode) == Some(v@),
            None => block_result(block@, mode) is None,
        },
{
    let lines = split_chars(block, '\n');
    let ghost ls = split_on(block@, '\n');
    assert(views(lines@) =~= ls);
    let mut nl: Vec<char> = Vec::new();
    nl.push('\n');
    assert(nl@ =~= seq!['\n']);
    match first_cue_exec(&lines) {
        Some(c) => {
            if c + 1 < lines.len() {
                let (hp, top) = cue_position_exec(&lines[c]);
                let n = lines.len();
                if hp {
                    if (mode == 2 && !top) || (mode == 3 && top) {
                        None
                    } else {
                        Some(join_vecs(&lines, &nl))
                    }
                } else if n - (c + 1) >= 2 {
                    if mode == 2 || mode == 3 {
                        let mut kept: Vec<Vec<char>> = Vec::new();
                        let mut k: usize = 0;
                        while k <= c
                            invariant
                                0 <= k <= c + 1,
                                c + 1 < n == lines.len(),
                                kept.len() == k,
                                forall|m: int| 0 <= m < k ==> #[trigger] kept@[m]@ == lines@[m]@,
                            decreases c + 1 - k,
                        {
                            kept.push(lines[k].clone());
                            k = k + 1;
                        }
                        let pick = if mode == 2 {
                            c + 1
                        } else {
                            n - 1
                        };
                        kept.push(lines[pick].clone());
                        proof {
                            let tl = ls.skip(c + 1);
                            let want = if mode == 2 {
                                ls.take(c + 1).push(tl[0])
                            } else {
                                ls.take(c + 1).push(tl.last())
                            };
                            assert(views(kept@) =~= want);
                        }
                        Some(join_vecs(&kept, &nl))
                    } else {
                        Some(join_vecs(&lines, &nl))
                    }
                } else if mode == 2 {
                    None
                } else {
                    Some(join_vecs(&lines, &nl))
                }
            } else {
                Some(join_vecs(&lines, &nl))
            }
        },
        None => Some(join_vecs(&lines, &nl)),
    }
}

fn filter_vtt_chars(text: &Vec<char>, mode: u8) -> (r: Vec<char>)
    ensures
        r@ == spec_filter_vtt(text@, mode),
{
    let mut sep: Vec<char> = Vec::new();
    sep.push('\n');
    sep.push('\n');
    assert(sep@ =~= seq!['\n', '\n']);
    let blocks = split_str_chars(text, &sep);
    let ghost bs = split_str(text@, seq!['\n', '\n']);
    assert(views(blocks@) =~= bs);
    let mut out: Vec<char> = Vec::new();
    let mut k: usize = 0;
    assert(bs.take(0) =~= Seq::<Seq<char>>::empty());
    while k < blocks.len()
        invariant
            0 <= k <= blocks.len(),
            bs == views(blocks@),
            out@ == assemble(bs.take(k as int), mode),
        decreases blocks.len() - k,
    {
        assert(bs.take(k + 1).drop_last() =~= bs.take(k as int));
        assert(bs.take(k + 1).last() == blocks@[k as int]@);
        if blocks[k].len() > 0 {
            match block_result_exec(&blocks[k], mode) {
                Some(o) => {
                    extend_chars(&mut out, &o);
                    out.push('\n');
                    out.push('\n');
                    assert(out@ =~= assemble(bs.take(k as int), mode) + o@ + seq!['\n', '\n']);
                },
                None => {},
            }
        }
        k = k + 1;
    }
    assert(bs.take(blocks.len() as int) =~= bs);
    out
}

/// The subtitle text shown for `mode` (1: both lines, 2: top, 3: bottom).
pub fn filter_vtt(text: &str, mode: u8) -> (r: String)
    ensures
        r@ == spec_filter_vtt(text@, mode),
{
    string_of(&filter_vtt_chars(&chars_of(text), mode))
}

/// The URL given to the subtitle track, empty when no track is shown.
pub fn subtitle_track_url(text: &str, mode: u8) -> (r: String)
    ensures
        r@ == spec_track_url(text@, mode),
{
    let t = chars_of(text);
    if t.len() == 0 || mode == 0 {
        return String::new();
    }
    let filtered = string_of(&filter_vtt_chars(&t, mode));
    let mut out = lit("data:text/vtt;charset=utf-8,");
    extend_chars(&mut out, &encode_chars(filtered.as_str()));
    string_of(&out)
}

// ---------------------------------------------------------------------------
// Languages of a `.vsub` file
// ---------------------------------------------------------------------------

/// What the `toml` crate parses a `.vsub` text into: the keys of the
/// top-level table, or the `Debug` text of the parse error.
pub uninterp spec fn toml_table_keys(text: Seq<char>) -> Result<Seq<Seq<char>>, Seq<char>>;

/// `text.parse::<toml::Table>()`, keeping the table's keys (in the order the
/// table lists them) or the `Debug` text of the error. Both are named by
/// `toml_table_keys`; the TOML grammar itself is not restated.
#[verifier::external_body]
fn parse_toml_keys(text: &str) -> (r: Result<Vec<String>, String>)
    ensures
        match r {
            Ok(v) => toml_table_keys(text@) == Ok::<Seq<Seq<char>>, Seq<char>>(string_views(v@)),
            Err(e) => toml_table_keys(text@) == Err::<Seq<Seq<char>>, Seq<char>>(e@),
        },
{
    match text.parse::<toml::Table>() {
        Ok(t) => Ok(t.keys().cloned().collect()),
        Err(e) => Err(format!("{:?}", e)),
    }
}

/// The language named by a line `[lang]` (spaces allowed around it).
pub open spec fn section_name(line: Seq<char>) -> Option<Seq<char>> {
    let t = crate::text::trim(line);
    if t.len() >= 2 && t[0] == '[' && t.last() == ']' {
        Some(crate::text::trim(t.subrange(1, t.len() - 1)))
    } else {
        None
    }
}

/// The sections of the first `lines` that are keys of the table, each once,
/// in order of appearance.
pub open spec fn collect_langs(lines: Seq<Seq<char>>, keys: Seq<Seq<char>>) -> Seq<Seq<char>>
    decreases lines.len(),
{
    if lines.len() == 0 {
        Seq::empty()
    } else {
        let prev = collect_langs(lines.drop_last(), keys);
        match section_name(lines.last()) {
            Some(l) => if keys.contains(l) && !prev.contains(l) {
                prev.push(l)
            } else {
                prev
            },
            None => prev,
        }
    }
}

/// The languages offered for a `.vsub` text whose table has `keys`: the
/// `[section]` lines that name a key, in order, or all keys when there are
/// none. (Each line of `str::lines` is trimmed before it is read, so the
/// pieces between `\n`s give the same sections.)
pub open spec fn spec_languages(text: Seq<char>, keys: Seq<Seq<char>>) -> Seq<Seq<char>> {
    let l = collect_langs(split_on(text, '\n'), keys);
    if l.len() == 0 {
        keys
    } else {
        l
    }
}

fn section_name_exec(line: &Vec<char>) -> (r: Option<Vec<char>>)
    ensures
        match r {
            Some(v) => section_name(line@) == Some(v@),
            None => section_name(line@) is None,
        },
{
    let t = crate::text::trim_chars(line);
    if t.len() >= 1 && t[0] == '[' && t[t.len() - 1] == ']' {
        let inner = slice_chars(&t, 1, t.len() - 1);
        Some(crate::text::trim_chars(&inner))
    } else {
        None
    }
}

fn contains_vec(v: &Vec<Vec<char>>, x: &Vec<char>) -> (r: bool)
    ensures
        r == views(v@).contains(x@),
{
    let mut k: usize = 0;
    while k < v.len()
        invariant
            0 <= k <= v.len(),
            forall|m: int| 0 <= m < k ==> v@[m]@ != x@,
        decreases v.len() - k,
    {
        if eq_chars(&v[k], x) {
            assert(views(v@)[k as int] == x@);
            return true;
        }
        k = k + 1;
    }
    assert forall|m: int| 0 <= m < views(v@).len() implies views(v@)[m] != x@ by {
        assert(views(v@)[m] == v@[m]@);
    }
    false
}

/// The languages offered for a `.vsub` text whose table has the keys `keys`.
pub fn languages_from_keys(text: &str, keys: &Vec<String>) -> (r: Vec<String>)
    ensures
        string_views(r@) == spec_languages(text@, string_views(keys@)),
{
    let lines = split_chars(&chars_of(text), '\n');
    let ghost ls = split_on(text@, '\n');
    assert(views(lines@) =~= ls);
    let mut key_chars: Vec<Vec<char>> = Vec::new();
    let mut k: usize = 0;
    while k < keys.len()
        invariant
            0 <= k <= keys.len(),
            key_chars.len() == k,
            forall|m: int| 0 <= m < k ==> #[trigger] key_chars@[m]@ == keys@[m]@,
        decreases keys.len() - k,
    {
        key_chars.push(chars_of(keys[k].as_str()));
        k = k + 1;
    }
    assert(views(key_chars@) =~= string_views(keys@));
    let mut langs: Vec<Vec<char>> = Vec::new();
    let mut i: usize = 0;
    assert(ls.take(0) =~= Seq::<Seq<char>>::empty());
    while i < lines.len()
        invariant
            0 <= i <= lines.len(),
            ls == views(lines@),
            ls == split_on(text@, '\n'),
            views(key_chars@) == string_views(keys@),
            views(langs@) == collect_langs(ls.take(i as int), string_views(keys@)),
        decreases lines.len() - i,
    {
        assert(ls.take(i + 1).drop_last() =~= ls.take(i as int));
        assert(ls.take(i + 1).last() == lines@[i as int]@);
        match section_name_exec(&lines[i]) {
            Some(l) => {
                if contains_vec(&key_chars, &l) && !contains_vec(&langs, &l) {
                    langs.push(l);
                    assert(views(langs@) =~= collect_langs(ls.take(i as int), string_views(keys@)).push(langs@.last()@));
                }
            },
            None => {},
        }
        i = i + 1;
    }
    assert(ls.take(lines.len() as int) =~= ls);
    if langs.len() == 0 {
        let mut out: Vec<String> = Vec::new();
        let mut k: usize = 0;
        while k < keys.len()
            invariant
                0 <= k <= keys.len(),
                out.len() == k,
                forall|m: int| 0 <= m < k ==> #[trigger] out@[m]@ == keys@[m]@,
            decreases keys.len() - k,
        {
            out.push(string_of(&chars_of(keys[k].as_str())));
            k = k + 1;
        }
        assert(string_views(out@) =~= string_views(keys@));
        out
    } else {
        let mut out: Vec<String> = Vec::new();
        let mut k: usize = 0;
        while k < langs.len()
            invariant
                0 <= k <= langs.len(),
                out.len() == k,
                forall|m: int| 0 <= m < k ==> #[trigger] out@[m]@ == langs@[m]@,
            decreases langs.len() - k,
        {
            out.push(string_of(&langs[k]));
            k = k + 1;
        }
        assert(string_views(out@) =~= views(langs@));
        out
    }
}

/// The languages offered by a `.vsub` file and the one chosen first.
pub struct LanguageChoice {
    pub langs: Vec<String>,
    pub active: Option<String>,
}

/// The languages offered for a `.vsub` text: from its table when it parses
/// (the first one active), else the parse error, offered as the only entry
/// and made active.
pub open spec fn spec_language_choice(
    text: Seq<char>,
    parsed: Result<Seq<Seq<char>>, Seq<char>>,
) -> (Seq<Seq<char>>, Option<Seq<char>>) {
    match parsed {
        Ok(keys) => {
            let l = spec_languages(text, keys);
            (l, if l.len() > 0 {
                Some(l[0])
            } else {
                None
            })
        },
        Err(e) => {
            let m = "Lỗi Parse TOML: "@ + e;
            (seq![m], Some(m))
        },
    }
}

pub open spec fn choice_view(c: LanguageChoice) -> (Seq<Seq<char>>, Option<Seq<char>>) {
    (
        string_views(c.langs@),
        match c.active {
            Some(a) => Some(a@),
            None => None,
        },
    )
}

/// The languages offered for a `.vsub` text.
pub fn vsub_languages(text: &str) -> (r: LanguageChoice)
    ensures
        choice_view(r) == spec_language_choice(text@, toml_table_keys(text@)),
{
    match parse_toml_keys(text) {
        Ok(keys) => {
            let langs = languages_from_keys(text, &keys);
            let active = if langs.len() > 0 {
                Some(string_of(&chars_of(langs[0].as_str())))
            } else {
                None
            };
            LanguageChoice { langs, active }
        },
        Err(e) => {
            let mut m = lit("Lỗi Parse TOML: ");
            extend_chars(&mut m, &chars_of(e.as_str()));
            let mut langs: Vec<String> = Vec::new();
            langs.push(string_of(&m));
            assert(string_views(langs@) =~= seq![m@]);
            LanguageChoice { langs, active: Some(string_of(&m)) }
        },
    }
}

// ---------------------------------------------------------------------------
// Where subtitles are fetched from
// ---------------------------------------------------------------------------

/// `s` up to its last `.`, or all of it.
pub open spec fn without_ext(s: Seq<char>) -> Seq<char> {
    match last_index_of(s, '.') {
        Some(i) => s.take(i),
        None => s,
    }
}

fn without_ext_chars(s: &Vec<char>) -> (r: Vec<char>)
    ensures
        r@ == without_ext(s@),
{
    match last_index(s, '.') {
        Some(i) => {
            proof {
                crate::text::lemma_last_index_of(s@, '.');
            }
            let r = slice_chars(s, 0, i);
            assert(r@ =~= s@.take(i as int));
            r
        },
        None => s.clone(),
    }
}

/// The URL of the `.vsub` file of a video, in one language: the media path
/// without `/storages/` and without its extension, in the query.
pub open spec fn spec_lang_subtitle_url(src: Seq<char>, lang: Seq<char>) -> Seq<char> {
    let prefix = "/storages/"@;
    let rel = if crate::text::starts_with(src, prefix) {
        src.skip(prefix.len() as int)
    } else {
        src
    };
    "/api/v1/subtitle?file="@ + without_ext(rel) + ".vsub&lang="@ + lang
}

pub fn lang_subtitle_url(src: &str, lang: &str) -> (r: String)
    ensures
        r@ == spec_lang_subtitle_url(src@, lang@),
{
    let s = chars_of(src);
    let prefix = lit("/storages/");
    let rel = if crate::text::starts_with_chars(&s, &prefix) {
        slice_chars(&s, prefix.len(), s.len())
    } else {
        s.clone()
    };
    assert(crate::text::starts_with(s@, "/storages/"@) ==> rel@ =~= s@.skip("/storages/"@.len() as int));
    let mut out = lit("/api/v1/subtitle?file=");
    extend_chars(&mut out, &without_ext_chars(&rel));
    extend_chars(&mut out, &lit(".vsub&lang="));
    extend_chars(&mut out, &chars_of(lang));
    string_of(&out)
}

/// The `.vtt` and `.vsub` files next to a media file: its path with the
/// extension replaced.
pub open spec fn spec_sidecar_urls(src: Seq<char>) -> (Seq<char>, Seq<char>) {
    (without_ext(src) + ".vtt"@, without_ext(src) + ".vsub"@)
}

pub fn sidecar_urls(src: &str) -> (r: (String, String))
    ensures
        (r.0@, r.1@) == spec_sidecar_urls(src@),
{
    let base = without_ext_chars(&chars_of(src));
    let mut vtt = base.clone();
    extend_chars(&mut vtt, &lit(".vtt"));
    let mut vsub = base;
    extend_chars(&mut vsub, &lit(".vsub"));
    (string_of(&vtt), string_of(&vsub))
}

/// The `.vskip` file of a media file's folder, with the time (in ms) as a
/// cache breaker; `None` when the path has no `/`.
pub open spec fn spec_skip_rules_url(src: Seq<char>, now_ms: u64) -> Option<Seq<char>> {
    match last_index_of(src, '/') {
        Some(i) => Some(src.take(i + 1) + ".vskip?t="@ + crate::number::decimal(now_ms as nat)),
        None => None,
    }
}

pub fn skip_rules_url(src: &str, now_ms: u64) -> (r: Option<String>)
    ensures
        match r {
            Some(u) => spec_skip_rules_url(src@, now_ms) == Some(u@),
            None => spec_skip_rules_url(src@, now_ms) is None,
        },
{
    let s = chars_of(src);
    match last_index(&s, '/') {
        Some(i) => {
            proof {
                crate::text::lemma_last_index_of(s@, '/');
            }
            assert(i < s.len());
            let mut out = slice_chars(&s, 0, i + 1);
            assert(out@ =~= s@.take(i + 1));
            extend_chars(&mut out, &lit(".vskip?t="));
            extend_chars(&mut out, &crate::number::decimal_chars(now_ms));
            Some(string_of(&out))
        },
        None => None,
    }
}

/// The address a media file is played from: `/storages/` and its path with
/// each part `encodeURIComponent`-ed.
pub open spec fn spec_media_src(path: Seq<char>) -> Seq<char> {
    "/storages/"@ + crate::uri::spec_encode_path(path)
}

pub fn media_src(path: &str) -> (r: String)
    ensures
        r@ == spec_media_src(path@),
{
    let mut out = lit("/storages/");
    extend_chars(&mut out, &crate::uri::encode_path_chars(&chars_of(path)));
    string_of(&out)
}

} // verus!
