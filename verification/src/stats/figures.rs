//! Numbers as `.stats` shows them.
use vstd::prelude::*;
use vstd::string::StrSliceExecFns;

use crate::decimal;
use crate::text;

verus! {

pub const KB: u64 = 1024;

pub const MB: u64 = 1_048_576;

pub const GB: u64 = 1_073_741_824;

/// A number of bytes for people: in the largest unit that it reaches, with two
/// decimals; below a kilobyte as it is.
pub open spec fn bytes_text(bytes: u64) -> Seq<char> {
    if bytes >= GB {
        decimal::hundredths_text(decimal::ratio_hundredths(bytes as nat, GB as nat)) + " GB"@
    } else if bytes >= MB {
        decimal::hundredths_text(decimal::ratio_hundredths(bytes as nat, MB as nat)) + " MB"@
    } else if bytes >= KB {
        decimal::hundredths_text(decimal::ratio_hundredths(bytes as nat, KB as nat)) + " KB"@
    } else {
        text::dec(bytes as nat) + " B"@
    }
}

/// Appends a number of bytes for people.
pub fn push_bytes(out: &mut String, bytes: u64)
    ensures
        final(out)@ == old(out)@ + bytes_text(bytes),
{
    let ghost before = out@;
    if bytes >= GB {
        decimal::push_ratio(out, bytes, GB);
        text::push_text(out, " GB");
    } else if bytes >= MB {
        decimal::push_ratio(out, bytes, MB);
        text::push_text(out, " MB");
    } else if bytes >= KB {
        decimal::push_ratio(out, bytes, KB);
        text::push_text(out, " KB");
    } else {
        text::push_dec(out, bytes);
        text::push_text(out, " B");
    }
    assert(out@ =~= before + bytes_text(bytes));
}

/// A number of bytes for people.
pub fn format_bytes(bytes: u64) -> (s: String)
    ensures
        s@ == bytes_text(bytes),
{
    let mut s: String = String::new();
    push_bytes(&mut s, bytes);
    assert(s@ =~= bytes_text(bytes));
    s
}

/// A number below a thousand with three digits.
pub open spec fn three_digits(n: nat) -> Seq<char> {
    seq![
        text::digit((n / 100) as int),
        text::digit((n / 10 % 10) as int),
        text::digit((n % 10) as int),
    ]
}

/// A number with a comma before every group of three digits but the first.
pub open spec fn num_text(n: nat) -> Seq<char>
    decreases n,
{
    if n < 1000 {
        text::dec(n)
    } else {
        num_text(n / 1000) + seq![','] + three_digits(n % 1000)
    }
}

/// Appends a number with thousand separators.
pub fn push_num(out: &mut String, n: u64)
    ensures
        final(out)@ == old(out)@ + num_text(n as nat),
    decreases n,
{
    let ghost before = out@;
    if n < 1000 {
        text::push_dec(out, n);
    } else {
        push_num(out, n / 1000);
        let rest: u64 = n % 1000;
        out.push(',');
        text::push_digit(out, rest / 100);
        text::push_digit(out, rest / 10 % 10);
        text::push_digit(out, rest % 10);
        assert(out@ =~= before + num_text(n as nat));
    }
}

/// A number with thousand separators.
pub fn format_num(n: u64) -> (s: String)
    ensures
        s@ == num_text(n as nat),
{
    let mut s: String = String::new();
    push_num(&mut s, n);
    assert(s@ =~= num_text(n as nat));
    s
}

/// A percentage with one decimal; zero of nothing is zero.
pub open spec fn percent_text(part: u64, whole: u64) -> Seq<char> {
    if whole == 0 {
        "0.0"@
    } else {
        decimal::tenths_text(decimal::percent_tenths(part as nat, whole as nat))
    }
}

/// Appends a percentage with one decimal.
pub fn push_percent(out: &mut String, part: u64, whole: u64)
    ensures
        final(out)@ == old(out)@ + percent_text(part, whole),
{
    if whole == 0 {
        text::push_text(out, "0.0");
    } else {
        decimal::push_percent(out, part, whole);
    }
}

/// How full the cache is. Usage is shown up to the limit; what is beyond it is
/// shown as waiting for eviction.
pub open spec fn cache_usage_text(current: u64, max: u64) -> Seq<char> {
    if max == 0 {
        bytes_text(current) + " / "@ + bytes_text(max) + " (0.0%)"@
    } else if current > max {
        bytes_text(max) + " / "@ + bytes_text(max) + " ("@ + percent_text(max, max) + "%, "@
            + bytes_text((current - max) as u64) + " pending eviction)"@
    } else {
        bytes_text(current) + " / "@ + bytes_text(max) + " ("@ + percent_text(current, max)
            + "%)"@
    }
}

/// How full the cache is, with usage capped at the limit.
pub fn format_cache_usage(current: u64, max: u64) -> (s: String)
    ensures
        s@ == cache_usage_text(current, max),
{
    if max == 0 {
        let mut s: String = format_bytes(current);
        text::push_text(&mut s, " / ");
        push_bytes(&mut s, max);
        text::push_text(&mut s, " (0.0%)");
        return s;
    }
    let used: u64 = if current < max {
        current
    } else {
        max
    };
    let mut s: String = format_bytes(used);
    text::push_text(&mut s, " / ");
    push_bytes(&mut s, max);
    text::push_text(&mut s, " (");
    push_percent(&mut s, used, max);
    if current > max {
        text::push_text(&mut s, "%, ");
        push_bytes(&mut s, current - max);
        text::push_text(&mut s, " pending eviction)");
    } else {
        text::push_text(&mut s, "%)");
    }
    s
}

/// A run of blanks.
pub open spec fn blanks(n: int) -> Seq<char> {
    if n <= 0 {
        Seq::empty()
    } else {
        Seq::new(n as nat, |i: int| ' ')
    }
}

/// A text with blanks behind it, to at least the given width.
pub open spec fn padded_right(s: Seq<char>, width: int) -> Seq<char> {
    s + blanks(width - s.len())
}

/// A text with blanks before it, to at least the given width.
pub open spec fn padded_left(s: Seq<char>, width: int) -> Seq<char> {
    blanks(width - s.len()) + s
}

/// Appends blanks for a text that falls short of a width.
fn push_blanks(out: &mut String, len: usize, width: usize)
    ensures
        final(out)@ == old(out)@ + blanks(width - len),
{
    let ghost before = out@;
    let mut n: usize = len;
    assert(before + blanks(0) =~= before);
    while n < width
        invariant
            len <= n,
            n <= width || n == len,
            out@ == before + blanks(n - len),
        decreases width - n,
    {
        out.push(' ');
        assert(out@ =~= before + blanks(n + 1 - len));
        n = n + 1;
    }
    if len >= width {
        assert(before + blanks(width - len) =~= before);
    }
}

/// Appends a text, padded with blanks behind it.
pub fn push_padded_right(out: &mut String, s: &str, width: usize)
    ensures
        final(out)@ == old(out)@ + padded_right(s@, width as int),
{
    let ghost before = out@;
    text::push_text(out, s);
    push_blanks(out, s.unicode_len(), width);
    assert(out@ =~= before + padded_right(s@, width as int));
}

/// Appends a text, padded with blanks before it.
pub fn push_padded_left(out: &mut String, s: &str, width: usize)
    ensures
        final(out)@ == old(out)@ + padded_left(s@, width as int),
{
    let ghost before = out@;
    push_blanks(out, s.unicode_len(), width);
    text::push_text(out, s);
    assert(out@ =~= before + padded_left(s@, width as int));
}

/// A cache that holds more than its limit is shown as full, with the rest as
/// waiting for eviction: never above one hundred percent.
pub proof fn law_over_budget_cache_is_full(current: u64, max: u64)
    requires
        current > max > 0,
    ensures
        cache_usage_text(current, max) == bytes_text(max) + " / "@ + bytes_text(max) + " ("@
            + "100.0"@ + "%, "@ + bytes_text((current - max) as u64) + " pending eviction)"@,
{
    decimal::law_whole_is_hundred_percent(max as nat);
}

} // verus!
