//! Names the file browser makes up: the next index of a bulk rename, the
//! bulk rename itself, the copy name of a conflicting file, and the smart
//! names given to uploads.
use vstd::prelude::*;

use crate::number::{
    all_digits, decimal, decimal_chars, digits_value, lemma_decimal_digits, lemma_leading_zeros,
    pad_zeros, pad_zeros_chars, parse_u32, parse_u32_chars, unsigned_body,
};
use crate::text::{
    chars_of, extend_chars, last_index, last_index_of, lemma_last_index_of, lit, slice_chars,
    spec_join_path, string_of,
};

verus! {

// ---------------------------------------------------------------------------
// The next index of a bulk rename
// ---------------------------------------------------------------------------

/// The index that follows `cur`: a number counts up (keeping its width when it
/// starts with `0`), a single letter before `z`/`Z` moves to the next letter,
/// and anything else stays as it is.
pub open spec fn spec_next_index(cur: Seq<char>) -> Seq<char> {
    match parse_u32(cur) {
        Some(num) => if cur.len() > 0 && cur[0] == '0' {
            pad_zeros(decimal((num + 1) as nat), cur.len())
        } else {
            decimal((num + 1) as nat)
        },
        None => if cur.len() == 1 && (('a' <= cur[0] && cur[0] < 'z') || ('A' <= cur[0] && cur[0]
            < 'Z')) {
            seq![((cur[0] as u32) + 1) as char]
        } else {
            cur
        },
    }
}

/// An index whose successor can be computed: the original adds one to the
/// parsed number, which overflows at `u32::MAX`.
pub open spec fn index_has_next(cur: Seq<char>) -> bool {
    parse_u32(cur) != Some(u32::MAX)
}

fn next_index_chars(cur: &Vec<char>) -> (r: Vec<char>)
    requires
        index_has_next(cur@),
    ensures
        r@ == spec_next_index(cur@),
{
    match parse_u32_chars(cur) {
        Some(num) => {
            let next = decimal_chars((num + 1) as u64);
            if cur.len() > 0 && cur[0] == '0' {
                pad_zeros_chars(&next, cur.len())
            } else {
                next
            }
        },
        None => {
            if cur.len() == 1 {
                let c = cur[0];
                if ('a' <= c && c < 'z') || ('A' <= c && c < 'Z') {
                    let mut r: Vec<char> = Vec::new();
                    let u = (c as u8) + 1;
                    let d = u as char;
                    proof {
                        assert((c as u32) + 1 == u as u32);
                    }
                    r.push(d);
                    return r;
                }
            }
            cur.clone()
        },
    }
}

/// The index that follows `current` in a bulk rename (`01` → `02`, `9` → `10`,
/// `a` → `b`, `Z` stays `Z`).
pub fn get_next_index(current: &str) -> (r: String)
    requires
        index_has_next(current@),
    ensures
        r@ == spec_next_index(current@),
{
    let cur = chars_of(current);
    string_of(&next_index_chars(&cur))
}

/// A numeric index counts up by one: the index after a number reads as
/// that number plus one.
pub proof fn lemma_next_index_counts(cur: Seq<char>)
    requires
        parse_u32(cur) is Some,
        parse_u32(cur)->0 < u32::MAX,
    ensures
        parse_u32(spec_next_index(cur)) == Some((parse_u32(cur)->0 + 1) as u32),
{
    let n = parse_u32(cur)->0;
    let m = (n + 1) as nat;
    let d = decimal(m);
    lemma_decimal_digits(m);
    let next = spec_next_index(cur);
    if cur.len() > 0 && cur[0] == '0' {
        if d.len() < cur.len() {
            let z = Seq::new((cur.len() - d.len()) as nat, |i: int| '0');
            lemma_leading_zeros(z, d);
            assert(next =~= z + d);
            assert(next[0] == '0');
        } else {
            assert(next == d);
        }
        assert(all_digits(next));
        assert(digits_value(next) == m);
        assert(unsigned_body(next) == next);
    } else {
        assert(next == d);
        assert(unsigned_body(next) == next);
    }
}

/// A letter index before `z` (or `Z`) moves to the next letter.
pub proof fn lemma_next_index_letter(c: char)
    requires
        ('a' <= c && c < 'z') || ('A' <= c && c < 'Z'),
    ensures
        spec_next_index(seq![c]) == seq![((c as u32) + 1) as char],
{
    assert(parse_u32(seq![c]) is None) by {
        assert(unsigned_body(seq![c]) =~= seq![c]);
        assert(!crate::number::is_digit(seq![c][0]));
    }
}

/// Whether `get_next_index` can be asked for the index after `current`.
pub fn has_next_index(current: &str) -> (r: bool)
    ensures
        r == index_has_next(current@),
{
    match parse_u32_chars(&chars_of(current)) {
        Some(n) => n != u32::MAX,
        None => true,
    }
}

// ---------------------------------------------------------------------------
// Copy names for conflicts
// ---------------------------------------------------------------------------

/// The name tried after a conflict chosen "Rename": ` (1)` goes before the
/// extension (what follows the last `.`), or at the end when there is none;
/// a trailing `.` with nothing after it is dropped.
pub open spec fn spec_copy_name(name: Seq<char>) -> Seq<char> {
    match last_index_of(name, '.') {
        Some(i) => {
            let ext = name.skip(i + 1);
            let stem = name.take(i);
            if ext.len() == 0 {
                stem + seq![' ', '(', '1', ')']
            } else {
                stem + seq![' ', '(', '1', ')', '.'] + ext
            }
        },
        None => name + seq![' ', '(', '1', ')'],
    }
}

pub(crate) fn copy_name_chars(name: &Vec<char>) -> (r: Vec<char>)
    ensures
        r@ == spec_copy_name(name@),
{
    let suffix = lit(" (1)");
    proof {
        reveal_strlit(" (1)");
        assert(suffix@ =~= seq![' ', '(', '1', ')']);
    }
    match last_index(name, '.') {
        Some(i) => {
            proof {
                lemma_last_index_of(name@, '.');
            }
            assert(i < name.len());
            let mut stem = slice_chars(name, 0, i);
            let ext = slice_chars(name, i + 1, name.len());
            extend_chars(&mut stem, &suffix);
            if ext.len() > 0 {
                stem.push('.');
                extend_chars(&mut stem, &ext);
            }
            proof {
                assert(name@.take(i as int) =~= name@.subrange(0, i as int));
                assert(name@.skip(i + 1) =~= name@.subrange(i + 1, name@.len() as int));
                assert(seq![' ', '(', '1', ')'] + seq!['.'] =~= seq![' ', '(', '1', ')', '.']);
            }
            stem
        },
        None => {
            let mut r = name.clone();
            extend_chars(&mut r, &suffix);
            r
        },
    }
}

/// The name tried after a conflict chosen "Rename" (`a.txt` → `a (1).txt`).
pub fn copy_name(name: &str) -> (r: String)
    ensures
        r@ == spec_copy_name(name@),
{
    let v = chars_of(name);
    string_of(&copy_name_chars(&v))
}

/// A copy name is longer than the name it was made from.
pub proof fn lemma_copy_name_grows(name: Seq<char>)
    ensures
        spec_copy_name(name).len() >= name.len() + 3,
{
    lemma_last_index_of(name, '.');
}

// ---------------------------------------------------------------------------
// Bulk rename
// ---------------------------------------------------------------------------

pub open spec fn default_label() -> Seq<char> {
    seq!['M', 'ặ', 'c', ' ', 'đ', 'ị', 'n', 'h']
}

/// The extension a bulk rename gives a file: with the format field empty or
/// left at its default label, the file keeps its own extension (from its last
/// `.`, dot included); otherwise the field, with a `.` put in front when it
/// has none.
pub open spec fn spec_bulk_extension(file_name: Seq<char>, input: Seq<char>) -> Seq<char> {
    if input.len() == 0 || input == default_label() {
        match last_index_of(file_name, '.') {
            Some(i) => file_name.skip(i),
            None => Seq::empty(),
        }
    } else if input[0] == '.' {
        input
    } else {
        seq!['.'] + input
    }
}

/// With the format field left empty (or at its default label), each file
/// keeps its own extension: the text of its name from its last `.` on, dot
/// included, or nothing when the name has no `.`. A file renamed so ends
/// with exactly that extension.
pub proof fn lemma_bulk_keeps_own_extension(file_name: Seq<char>, input: Seq<char>)
    requires
        input.len() == 0 || input == default_label(),
    ensures
        ({
            let x = spec_bulk_extension(file_name, input);
            &&& x == spec_bulk_extension(file_name, Seq::empty())
            &&& x == spec_bulk_extension(file_name, default_label())
            &&& (exists|i: int| 0 <= i < file_name.len() && file_name[i] == '.') ==> {
                &&& x.len() > 0
                &&& x[0] == '.'
                &&& file_name == file_name.take(file_name.len() - x.len()) + x
                &&& forall|j: int| 0 < j < x.len() ==> x[j] != '.'
            }
            &&& !(exists|i: int| 0 <= i < file_name.len() && file_name[i] == '.') ==> x.len()
                == 0
        }),
{
    lemma_last_index_of(file_name, '.');
    let x = spec_bulk_extension(file_name, input);
    match last_index_of(file_name, '.') {
        Some(i) => {
            assert(x == file_name.skip(i));
            assert(file_name =~= file_name.take(file_name.len() - x.len()) + x);
            assert forall|j: int| 0 < j < x.len() implies x[j] != '.' by {
                assert(x[j] == file_name[i + j]);
            }
        },
        None => {},
    }
}

/// The `k`-th index of a bulk rename that starts at `start`.
pub open spec fn nth_index(start: Seq<char>, k: nat) -> Seq<char>
    decreases k,
{
    if k == 0 {
        start
    } else {
        spec_next_index(nth_index(start, (k - 1) as nat))
    }
}

/// The first `n` indices can each be followed by the next one.
pub open spec fn indices_have_next(start: Seq<char>, n: nat) -> bool {
    forall|k: nat| k < n ==> index_has_next(#[trigger] nth_index(start, k))
}

/// One rename of a bulk rename: the file's full path and its new name.
pub struct RenameStep {
    pub path: String,
    pub new_name: String,
}

/// The renames for the files `sorted_names` (already in sorted order) of the
/// folder `dir`: file `k` is renamed to `common`, the `k`-th index and its
/// extension.
pub open spec fn bulk_step_ok(
    step: RenameStep,
    dir: Seq<char>,
    name: Seq<char>,
    common: Seq<char>,
    index: Seq<char>,
    ext_input: Seq<char>,
) -> bool {
    &&& step.path@ == spec_join_path(dir, name)
    &&& step.new_name@ == common + index + spec_bulk_extension(name, ext_input)
}

fn bulk_extension_chars(file_name: &Vec<char>, input: &Vec<char>) -> (r: Vec<char>)
    ensures
        r@ == spec_bulk_extension(file_name@, input@),
{
    let label = lit("Mặc định");
    proof {
        reveal_strlit("Mặc định");
        assert(label@ =~= default_label());
    }
    if input.len() == 0 || crate::text::eq_chars(input, &label) {
        match last_index(file_name, '.') {
            Some(i) => {
                proof {
                    lemma_last_index_of(file_name@, '.');
                }
                let r = slice_chars(file_name, i, file_name.len());
                assert(r@ =~= file_name@.skip(i as int));
                r
            },
            None => Vec::new(),
        }
    } else if input[0] == '.' {
        input.clone()
    } else {
        let mut r: Vec<char> = Vec::new();
        r.push('.');
        extend_chars(&mut r, input);
        r
    }
}

/// The renames of a bulk rename, in the order they are sent.
pub fn bulk_rename_plan(
    sorted_names: &Vec<String>,
    dir: &str,
    common: &str,
    start_index: &str,
    extension: &str,
) -> (r: Vec<RenameStep>)
    requires
        indices_have_next(start_index@, sorted_names.len() as nat),
    ensures
        r.len() == sorted_names.len(),
        forall|k: int|
            0 <= k < r.len() ==> bulk_step_ok(
                #[trigger] r@[k],
                dir@,
                sorted_names@[k]@,
                common@,
                nth_index(start_index@, k as nat),
                extension@,
            ),
{
    let d = chars_of(dir);
    let c = chars_of(common);
    let e = chars_of(extension);
    let mut idx = chars_of(start_index);
    let mut out: Vec<RenameStep> = Vec::new();
    let mut k: usize = 0;
    while k < sorted_names.len()
        invariant
            0 <= k <= sorted_names.len(),
            out.len() == k,
            d@ == dir@,
            c@ == common@,
            e@ == extension@,
            idx@ == nth_index(start_index@, k as nat),
            indices_have_next(start_index@, sorted_names.len() as nat),
            forall|m: int|
                0 <= m < k ==> bulk_step_ok(
                    #[trigger] out@[m],
                    dir@,
                    sorted_names@[m]@,
                    common@,
                    nth_index(start_index@, m as nat),
                    extension@,
                ),
        decreases sorted_names.len() - k,
    {
        let name = chars_of(sorted_names[k].as_str());
        let path = crate::text::join_path_chars(&d, &name);
        let ext = bulk_extension_chars(&name, &e);
        let mut new_name = c.clone();
        extend_chars(&mut new_name, &idx);
        extend_chars(&mut new_name, &ext);
        out.push(RenameStep { path: string_of(&path), new_name: string_of(&new_name) });
        proof {
            assert(index_has_next(nth_index(start_index@, k as nat)));
        }
        idx = next_index_chars(&idx);
        k = k + 1;
    }
    out
}

/// The renames of a bulk rename, or `None` where counting up the indices
/// would pass `u32::MAX`.
pub fn bulk_rename_plan_checked(
    sorted_names: &Vec<String>,
    dir: &str,
    common: &str,
    start_index: &str,
    extension: &str,
) -> (r: Option<Vec<RenameStep>>)
    ensures
        match r {
            Some(steps) => indices_have_next(start_index@, sorted_names.len() as nat)
                && steps.len() == sorted_names.len() && forall|k: int|
                0 <= k < steps.len() ==> bulk_step_ok(
                    #[trigger] steps@[k],
                    dir@,
                    sorted_names@[k]@,
                    common@,
                    nth_index(start_index@, k as nat),
                    extension@,
                ),
            None => !indices_have_next(start_index@, sorted_names.len() as nat),
        },
{
    let mut idx = chars_of(start_index);
    let mut k: usize = 0;
    while k < sorted_names.len()
        invariant
            0 <= k <= sorted_names.len(),
            idx@ == nth_index(start_index@, k as nat),
            forall|m: nat| m < k ==> index_has_next(#[trigger] nth_index(start_index@, m)),
        decreases sorted_names.len() - k,
    {
        let ok = match parse_u32_chars(&idx) {
            Some(n) => n != u32::MAX,
            None => true,
        };
        if !ok {
            assert(!index_has_next(nth_index(start_index@, k as nat)));
            return None;
        }
        idx = next_index_chars(&idx);
        k = k + 1;
    }
    Some(bulk_rename_plan(sorted_names, dir, common, start_index, extension))
}

/// The common name proposed for a bulk rename: the first selected name (in
/// sorted order) up to its last `.`.
pub open spec fn spec_base_name(first: Seq<char>) -> Seq<char> {
    match last_index_of(first, '.') {
        Some(i) => first.take(i),
        None => first,
    }
}

pub fn base_name(first: &str) -> (r: String)
    ensures
        r@ == spec_base_name(first@),
{
    let v = chars_of(first);
    match last_index(&v, '.') {
        Some(i) => {
            proof {
                lemma_last_index_of(v@, '.');
            }
            let r = slice_chars(&v, 0, i);
            assert(r@ =~= v@.take(i as int));
            string_of(&r)
        },
        None => string_of(&v),
    }
}

} // verus!
