//! Texts shown for sizes, dates and play times.
//!
//! Sizes are shown the way `format!("{:.2} GB", bytes as f64 / gb)` shows
//! them. Every step of that is exact in integers: the conversion of a `u64`
//! to the nearest `f64` (ties to even), the division by a power of two, and
//! the rounding to two decimals of the exact value (ties to even, as std's
//! float formatting rounds).
use vstd::arithmetic::div_mod::{lemma_div_denominator, lemma_fundamental_div_mod};
use vstd::arithmetic::power2::{lemma_pow2_unfold, pow2};
use vstd::prelude::*;

use crate::api::FileItem;
use crate::number::{decimal, decimal_chars, two_digit_chars, two_digits};
use crate::text::{after_last, after_last_chars, chars_of, extend_chars, lit, slice_chars, string_of, to_upper, uppercase};

verus! {

pub open spec fn two_pow_53() -> nat {
    0x20000000000000
}

/// How many low bits an `f64` drops from `n`: halvings until it fits in 53 bits.
pub open spec fn f64_shift(n: nat) -> nat
    decreases n,
{
    if n < two_pow_53() {
        0
    } else {
        1 + f64_shift(n / 2)
    }
}

/// `n / d` rounded to the nearest integer, ties to the even one.
pub open spec fn round_half_even(n: nat, d: nat) -> nat
    recommends
        d > 0,
{
    let q = n / d;
    let r = n % d;
    if 2 * r > d || (2 * r == d && q % 2 == 1) {
        q + 1
    } else {
        q
    }
}

/// The value of `n as f64` (an integer: the nearest `f64`, ties to even).
pub open spec fn as_f64(n: nat) -> nat {
    let u = pow2(f64_shift(n));
    round_half_even(n, u) * u
}

/// `{:.2}` of the exact value `num / den`, with `sep` as the decimal mark.
pub open spec fn fixed2(num: nat, den: nat, sep: char) -> Seq<char> {
    let c = round_half_even(num * 100, den);
    decimal(c / 100) + seq![sep] + two_digits(c % 100)
}

pub open spec fn kib() -> nat {
    1024
}

pub open spec fn mib() -> nat {
    1048576
}

pub open spec fn gib() -> nat {
    1073741824
}

/// A size in bytes as the file list shows it: in GB, MB or KB with two
/// decimals, or in bytes under a KB; `sep` is the decimal mark.
pub open spec fn size_text(bytes: u64, sep: char) -> Seq<char> {
    let f = as_f64(bytes as nat);
    if f >= gib() {
        fixed2(f, gib(), sep) + " GB"@
    } else if f >= mib() {
        fixed2(f, mib(), sep) + " MB"@
    } else if f >= kib() {
        fixed2(f, kib(), sep) + " KB"@
    } else {
        decimal(bytes as nat) + " B"@
    }
}

proof fn lemma_half(n: nat, k: nat)
    ensures
        (n / pow2(k)) / 2 == n / pow2(k + 1),
        pow2(k + 1) == 2 * pow2(k),
        pow2(k) > 0,
{
    lemma_pow2_unfold(k + 1);
    vstd::arithmetic::power2::lemma_pow2_pos(k);
    lemma_div_denominator(n as int, pow2(k) as int, 2);
    assert(pow2(k) * 2 == 2 * pow2(k)) by (nonlinear_arith);
}

fn round_half_even_exec(n: u128, d: u128) -> (r: u128)
    requires
        d > 0,
        n / d + 1 <= u128::MAX,
    ensures
        r == round_half_even(n as nat, d as nat),
{
    let q = n / d;
    let r = n % d;
    if (r > d - r) || (r == d - r && q % 2 == 1) {
        q + 1
    } else {
        q
    }
}

/// The value of `n as f64`.
fn as_f64_exec(n: u64) -> (r: u128)
    ensures
        r == as_f64(n as nat),
        r <= 0x10000000000000000,
{
    let mut m: u64 = n;
    let mut unit: u128 = 1;
    let ghost mut k: nat = 0;
    proof {
        vstd::arithmetic::power2::lemma2_to64();
    }
    while m >= 0x20000000000000
        invariant
            unit == pow2(k),
            m == n as nat / pow2(k),
            f64_shift(n as nat) == k + f64_shift(m as nat),
            k <= 11,
            pow2(k) > 0,
            m as nat * pow2(k) <= n,
        decreases m,
    {
        proof {
            lemma_half(n as nat, k);
            assert(pow2(k) < 2048) by (nonlinear_arith)
                requires
                    m >= 0x20000000000000,
                    m as nat * pow2(k) <= n,
                    n < 0x10000000000000000,
            ;
            vstd::arithmetic::power2::lemma2_to64();
            if k > 11 {
                vstd::arithmetic::power2::lemma_pow2_strictly_increases(11, k);
            }
            assert(k < 11);
        }
        m = m / 2;
        unit = unit * 2;
        proof {
            k = k + 1;
            lemma_fundamental_div_mod(n as int, pow2(k) as int);
            assert(m as nat * pow2(k) <= n) by (nonlinear_arith)
                requires
                    n == pow2(k) * (n as nat / pow2(k)) + n as nat % pow2(k),
                    pow2(k) > 0,
                    m == n as nat / pow2(k),
            ;
        }
    }
    proof {
        vstd::arithmetic::power2::lemma2_to64();
        if k < 11 {
            vstd::arithmetic::power2::lemma_pow2_strictly_increases(k, 11);
        }
    }
    assert(unit <= 2048);
    assert((n as u128) / unit == m);
    let c = round_half_even_exec(n as u128, unit);
    assert(c <= 0x20000000000000);
    assert(c * unit <= 0x10000000000000000) by (nonlinear_arith)
        requires
            c <= 0x20000000000000,
            unit <= 2048,
    ;
    c * unit
}

/// `{:.2}` of `num / den`.
fn fixed2_chars(num: u128, den: u128, sep: char) -> (r: Vec<char>)
    requires
        den == 1024 || den == 1048576 || den == 1073741824,
        num <= 0x10000000000000000,
        num >= den,
    ensures
        r@ == fixed2(num as nat, den as nat, sep),
{
    let n2 = num * 100;
    let c = round_half_even_exec(n2, den);
    proof {
        assert(n2 / den <= n2 / 1024) by {
            vstd::arithmetic::div_mod::lemma_div_is_ordered_by_denominator(n2 as int, 1024, den as int);
        }
        assert(n2 / 1024 <= 0x10000000000000000 * 100 / 1024) by {
            vstd::arithmetic::div_mod::lemma_div_is_ordered(n2 as int, 0x10000000000000000int * 100, 1024);
        }
    }
    let whole = c / 100;
    let cents = c % 100;
    let mut out = decimal_chars(whole as u64);
    out.push(sep);
    extend_chars(&mut out, &two_digit_chars(cents as u64));
    out
}

fn size_chars(bytes: u64, sep: char) -> (r: Vec<char>)
    ensures
        r@ == size_text(bytes, sep),
{
    let f = as_f64_exec(bytes);
    if f >= 1073741824 {
        let mut out = fixed2_chars(f, 1073741824, sep);
        extend_chars(&mut out, &lit(" GB"));
        out
    } else if f >= 1048576 {
        let mut out = fixed2_chars(f, 1048576, sep);
        extend_chars(&mut out, &lit(" MB"));
        out
    } else if f >= 1024 {
        let mut out = fixed2_chars(f, 1024, sep);
        extend_chars(&mut out, &lit(" KB"));
        out
    } else {
        let mut out = decimal_chars(bytes);
        extend_chars(&mut out, &lit(" B"));
        out
    }
}

/// The size column of the file list (`1.50 MB`, `512 B`).
pub fn format_size(bytes: u64) -> (r: String)
    ensures
        r@ == size_text(bytes, '.'),
{
    string_of(&size_chars(bytes, '.'))
}

/// The sizes of the disk card, with a decimal comma (`1,50 GB`).
pub fn format_size_comma(bytes: u64) -> (r: String)
    ensures
        r@ == size_text(bytes, ','),
{
    string_of(&size_chars(bytes, ','))
}

/// `{:.1}` of the exact value `num / den`.
pub open spec fn fixed1(num: nat, den: nat) -> Seq<char> {
    let c = round_half_even(num * 10, den);
    decimal(c / 10) + seq!['.'] + decimal(c % 10)
}

/// The size shown on the card of a picked file: bytes under a KB, KB with
/// one decimal under a MB, MB with two decimals from there on.
pub open spec fn card_size_text(bytes: u64) -> Seq<char> {
    if bytes < kib() {
        decimal(bytes as nat) + " B"@
    } else if bytes < mib() {
        fixed1(bytes as nat, kib()) + " KB"@
    } else {
        fixed2(bytes as nat, mib(), '.') + " MB"@
    }
}

/// The size label of a picked file's card (`512 B`, `1.5 KB`, `3.25 MB`).
pub fn card_size(bytes: u64) -> (r: String)
    ensures
        r@ == card_size_text(bytes),
{
    if bytes < 1024 {
        let mut out = decimal_chars(bytes);
        extend_chars(&mut out, &lit(" B"));
        string_of(&out)
    } else if bytes < 1048576 {
        let c = round_half_even_exec((bytes as u128) * 10, 1024);
        let mut out = decimal_chars((c / 10) as u64);
        out.push('.');
        extend_chars(&mut out, &decimal_chars((c % 10) as u64));
        extend_chars(&mut out, &lit(" KB"));
        string_of(&out)
    } else {
        let mut out = fixed2_chars(bytes as u128, 1048576, '.');
        extend_chars(&mut out, &lit(" MB"));
        string_of(&out)
    }
}

/// The badge of a picked file's card: the first four characters of its
/// upper-cased extension (what follows the last `.`, or the whole name).
pub open spec fn spec_badge_text(name: Seq<char>) -> Seq<char> {
    let e = uppercase(after_last(name, '.'));
    if e.len() > 4 {
        e.take(4)
    } else {
        e
    }
}

pub fn badge_text(name: &str) -> (r: String)
    ensures
        r@ == spec_badge_text(name@),
{
    let e = to_upper(&after_last_chars(&chars_of(name), '.'));
    if e.len() > 4 {
        let r = slice_chars(&e, 0, 4);
        assert(r@ =~= e@.take(4));
        string_of(&r)
    } else {
        string_of(&e)
    }
}

/// What the size column shows for an entry: the number of items of a
/// folder, or the size of a file.
pub open spec fn size_column_text(item: FileItem) -> Seq<char> {
    if item.is_dir {
        decimal(
            match item.children_count {
                Some(c) => c as nat,
                None => 0,
            },
        ) + " mục"@
    } else {
        size_text(item.size, '.')
    }
}

pub fn size_column(item: &FileItem) -> (r: String)
    ensures
        r@ == size_column_text(*item),
{
    if item.is_dir {
        let count: usize = match item.children_count {
            Some(c) => c,
            None => 0,
        };
        let mut out = decimal_chars(count as u64);
        extend_chars(&mut out, &lit(" mục"));
        string_of(&out)
    } else {
        format_size(item.size)
    }
}

// ---------------------------------------------------------------------------
// Dates and play times
// ---------------------------------------------------------------------------

/// The hour on a 12-hour clock.
pub open spec fn clock_hour(hours: u32) -> nat {
    if hours > 12 {
        (hours - 12) as nat
    } else if hours == 0 {
        12
    } else {
        hours as nat
    }
}

/// The modification date of the file list, `month/day/yy h:mm AM|PM`, from
/// the local date's fields: the month counted from 0, the day of the month,
/// the full year, the hour (0 to 23) and the minutes.
pub open spec fn date_text(month0: u32, day: u32, full_year: u32, hours: u32, minutes: u32) -> Seq<
    char,
> {
    decimal((month0 + 1) as nat) + "/"@ + decimal(day as nat) + "/"@ + decimal((full_year % 100) as nat)
        + " "@ + decimal(clock_hour(hours)) + ":"@ + two_digits(minutes as nat) + if hours >= 12 {
        " PM"@
    } else {
        " AM"@
    }
}

pub fn format_date(month0: u32, day: u32, full_year: u32, hours: u32, minutes: u32) -> (r: String)
    ensures
        r@ == date_text(month0, day, full_year, hours, minutes),
{
    let mut out = decimal_chars(month0 as u64 + 1);
    extend_chars(&mut out, &lit("/"));
    extend_chars(&mut out, &decimal_chars(day as u64));
    extend_chars(&mut out, &lit("/"));
    extend_chars(&mut out, &decimal_chars((full_year % 100) as u64));
    extend_chars(&mut out, &lit(" "));
    let h: u32 = if hours > 12 {
        hours - 12
    } else if hours == 0 {
        12
    } else {
        hours
    };
    extend_chars(&mut out, &decimal_chars(h as u64));
    extend_chars(&mut out, &lit(":"));
    extend_chars(&mut out, &two_digit_chars(minutes as u64));
    if hours >= 12 {
        extend_chars(&mut out, &lit(" PM"));
    } else {
        extend_chars(&mut out, &lit(" AM"));
    }
    string_of(&out)
}

/// A play time in whole seconds: `hh:mm:ss` from an hour on, `mm:ss` below.
pub open spec fn time_text(secs: u64) -> Seq<char> {
    let h = secs / 3600;
    let m = (secs / 60) % 60;
    let s = secs % 60;
    if h > 0 {
        two_digits(h as nat) + ":"@ + two_digits(m as nat) + ":"@ + two_digits(s as nat)
    } else {
        two_digits(m as nat) + ":"@ + two_digits(s as nat)
    }
}

pub fn format_time(secs: u64) -> (r: String)
    ensures
        r@ == time_text(secs),
{
    let m_all = secs / 60;
    let h = m_all / 60;
    let m = m_all % 60;
    let s = secs % 60;
    assert(h == secs / 3600) by {
        lemma_div_denominator(secs as int, 60, 60);
    }
    let mut out: Vec<char> = Vec::new();
    if h > 0 {
        out = two_digit_chars(h);
        extend_chars(&mut out, &lit(":"));
    }
    extend_chars(&mut out, &two_digit_chars(m));
    extend_chars(&mut out, &lit(":"));
    extend_chars(&mut out, &two_digit_chars(s));
    proof {
        if h == 0 {
            assert(out@ =~= two_digits(m as nat) + ":"@ + two_digits(s as nat));
        }
    }
    string_of(&out)
}

/// `n mục`: a number of entries.
pub open spec fn spec_count_label(n: usize) -> Seq<char> {
    decimal(n as nat) + " mục"@
}

pub fn count_label(n: usize) -> (r: String)
    ensures
        r@ == spec_count_label(n),
{
    let mut out = decimal_chars(n as u64);
    extend_chars(&mut out, &lit(" mục"));
    string_of(&out)
}

/// A size in the properties dialog: the size text and the exact count.
pub open spec fn spec_size_with_bytes(size: u64) -> Seq<char> {
    size_text(size, '.') + " ("@ + decimal(size as nat) + " Byte)"@
}

pub fn size_with_bytes(size: u64) -> (r: String)
    ensures
        r@ == spec_size_with_bytes(size),
{
    let mut out = size_chars(size, '.');
    extend_chars(&mut out, &lit(" ("));
    extend_chars(&mut out, &decimal_chars(size));
    extend_chars(&mut out, &lit(" Byte)"));
    string_of(&out)
}

/// The modification date in the properties dialog, `day/month/yy h:mm` on a
/// 24-hour clock, from the local date's fields (the month counted from 0).
pub open spec fn spec_properties_date(day: u32, month0: u32, full_year: u32, hours: u32, minutes: u32) -> Seq<
    char,
> {
    decimal(day as nat) + "/"@ + decimal((month0 + 1) as nat) + "/"@ + decimal(
        (full_year % 100) as nat,
    ) + " "@ + decimal(hours as nat) + ":"@ + two_digits(minutes as nat)
}

pub fn properties_date(day: u32, month0: u32, full_year: u32, hours: u32, minutes: u32) -> (r: String)
    ensures
        r@ == spec_properties_date(day, month0, full_year, hours, minutes),
{
    let mut out = decimal_chars(day as u64);
    extend_chars(&mut out, &lit("/"));
    extend_chars(&mut out, &decimal_chars(month0 as u64 + 1));
    extend_chars(&mut out, &lit("/"));
    extend_chars(&mut out, &decimal_chars((full_year % 100) as u64));
    extend_chars(&mut out, &lit(" "));
    extend_chars(&mut out, &decimal_chars(hours as u64));
    extend_chars(&mut out, &lit(":"));
    extend_chars(&mut out, &two_digit_chars(minutes as u64));
    string_of(&out)
}

/// The time an upload still needs, `hh:mm:ss`.
pub open spec fn spec_remaining_text(secs: u64) -> Seq<char> {
    "Thời gian còn lại: "@ + two_digits((secs / 3600) as nat) + ":"@ + two_digits(
        ((secs % 3600) / 60) as nat,
    ) + ":"@ + two_digits((secs % 60) as nat)
}

pub fn remaining_text(secs: u64) -> (r: String)
    ensures
        r@ == spec_remaining_text(secs),
{
    let mut out = lit("Thời gian còn lại: ");
    extend_chars(&mut out, &two_digit_chars(secs / 3600));
    extend_chars(&mut out, &lit(":"));
    extend_chars(&mut out, &two_digit_chars((secs % 3600) / 60));
    extend_chars(&mut out, &lit(":"));
    extend_chars(&mut out, &two_digit_chars(secs % 60));
    string_of(&out)
}

} // verus!
