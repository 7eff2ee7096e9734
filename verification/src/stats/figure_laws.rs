//! How numbers, sizes, shares and names are shown.
use vstd::prelude::*;

use crate::decimal;
use crate::stats::figures;
use crate::stats::reports;
use crate::text;

verus! {

/// A size is shown as it is below a kibibyte, and from there on in the largest unit
/// that it reaches, with two decimals.
pub proof fn law_sizes_are_shown_in_their_unit(n: u64)
    ensures
        n < 1024 ==> figures::bytes_text(n) == text::dec(n as nat) + " B"@,
        1024 <= n < 1024 * 1024 ==> figures::bytes_text(n) == decimal::hundredths_text(
            decimal::ratio_hundredths(n as nat, 1024),
        ) + " KB"@,
        1024 * 1024 <= n < 1024 * 1024 * 1024 ==> figures::bytes_text(n)
            == decimal::hundredths_text(decimal::ratio_hundredths(n as nat, 1024 * 1024)) + " MB"@,
        1024 * 1024 * 1024 <= n ==> figures::bytes_text(n) == decimal::hundredths_text(
            decimal::ratio_hundredths(n as nat, 1024 * 1024 * 1024),
        ) + " GB"@,
{
}

/// Nothing is zero percent, and so is a part of nothing; the whole is a hundred
/// percent; any other share is rounded to a tenth of a percent.
pub proof fn law_shares_in_percent(part: u64, whole: u64)
    ensures
        figures::percent_text(part, 0) == "0.0"@,
        figures::percent_text(0, whole) == "0.0"@,
        whole > 0 ==> figures::percent_text(whole, whole) == "100.0"@,
        whole > 0 ==> figures::percent_text(part, whole) == decimal::tenths_text(
            decimal::percent_tenths(part as nat, whole as nat),
        ),
{
    reveal_strlit("0.0");
    assert(decimal::tenths_text(0) =~= "0.0"@);
    if whole > 0 {
        decimal::law_whole_is_hundred_percent(whole as nat);
    }
}

/// How full a cache is: what it holds and its limit, the share of the limit, and what
/// is beyond the limit as waiting for eviction.
pub proof fn law_usage_of_the_cache(current: u64, max: u64)
    ensures
        max == 0 ==> figures::cache_usage_text(current, max) == figures::bytes_text(current)
            + " / "@ + figures::bytes_text(0) + " (0.0%)"@,
        0 < max && current <= max ==> figures::cache_usage_text(current, max)
            == figures::bytes_text(current) + " / "@ + figures::bytes_text(max) + " ("@
            + figures::percent_text(current, max) + "%)"@,
        0 < max < current ==> figures::cache_usage_text(current, max) == figures::bytes_text(max)
            + " / "@ + figures::bytes_text(max) + " ("@ + "100.0"@ + "%, "@ + figures::bytes_text(
            (current - max) as u64,
        ) + " pending eviction)"@,
{
    if max > 0 {
        decimal::law_whole_is_hundred_percent(max as nat);
    }
}

/// A number with separators is the number once the commas are taken out.
pub proof fn law_separators_only_separate(n: nat)
    ensures
        figures::num_text(n).filter(|c: char| c != ',') == text::dec(n),
        n < 1000 ==> figures::num_text(n) == text::dec(n),
        n >= 1000 ==> figures::num_text(n)[figures::num_text(n).len() - 4] == ',',
    decreases n,
{
    let keep = |c: char| c != ',';
    if n < 1000 {
        text::law_decimal_stands_for_its_number(n);
        lemma_nothing_filtered(text::dec(n), keep);
    } else {
        let m = n / 1000;
        let r = n % 1000;
        law_separators_only_separate(m);
        let front = figures::num_text(m);
        let one = front.push(',');
        let all = figures::num_text(n);
        let a = text::digit((r / 100) as int);
        let b = text::digit((r / 10 % 10) as int);
        let c = text::digit((r % 10) as int);
        assert(all =~= one.push(a).push(b).push(c));
        lemma_filter_push(front, ',', keep);
        lemma_filter_push(one, a, keep);
        lemma_filter_push(one.push(a), b, keep);
        lemma_filter_push(one.push(a).push(b), c, keep);
        assert(all.filter(keep) == text::dec(m).push(a).push(b).push(c));
        reveal_with_fuel(text::dec, 4);
        assert(n / 10 / 10 / 10 == m);
        assert(n % 10 == r % 10);
        assert(n / 10 % 10 == r / 10 % 10);
        assert(n / 10 / 10 % 10 == r / 100);
    }
}

proof fn lemma_filter_push(s: Seq<char>, c: char, keep: spec_fn(char) -> bool)
    ensures
        s.push(c).filter(keep) == (if keep(c) {
            s.filter(keep).push(c)
        } else {
            s.filter(keep)
        }),
{
    reveal(Seq::filter);
    assert(s.push(c).drop_last() =~= s);
}

proof fn lemma_nothing_filtered(s: Seq<char>, keep: spec_fn(char) -> bool)
    requires
        forall|i: int| 0 <= i < s.len() ==> keep(#[trigger] s[i]),
    ensures
        s.filter(keep) == s,
    decreases s.len(),
{
    reveal(Seq::filter);
    if s.len() > 0 {
        assert forall|i: int| 0 <= i < s.drop_last().len() implies keep(
            #[trigger] s.drop_last()[i],
        ) by {
            assert(s.drop_last()[i] == s[i]);
        }
        lemma_nothing_filtered(s.drop_last(), keep);
        assert(keep(s[s.len() - 1]));
        assert(s.drop_last().push(s.last()) =~= s);
    } else {
        assert(s.filter(keep) =~= s);
    }
}

/// A text is padded with blanks to its width, behind it or before it, and never cut.
pub proof fn law_texts_are_padded(s: Seq<char>, width: int, i: int)
    requires
        0 <= width,
    ensures
        ({
            let right = figures::padded_right(s, width);
            let left = figures::padded_left(s, width);
            let n = s.len() as int;
            let len = if n < width {
                width
            } else {
                n
            };
            &&& right.len() == len
            &&& left.len() == len
            &&& right.take(n) == s
            &&& left.skip(len - n) == s
            &&& n <= i < len ==> right[i] == ' '
            &&& 0 <= i < len - n ==> left[i] == ' '
        }),
{
    let n = s.len() as int;
    let len = if n < width {
        width
    } else {
        n
    };
    assert(figures::padded_right(s, width).take(n) =~= s);
    assert(figures::padded_left(s, width).skip(len - n) =~= s);
}

/// A name of up to forty bytes is shown whole; of a longer one the first thirty-seven
/// characters, and three dots.
pub proof fn law_long_names_are_cut(name: Seq<char>)
    ensures
        vstd::utf8::encode_utf8(name).len() <= 40 ==> reports::short_name(name) == name,
        vstd::utf8::encode_utf8(name).len() > 40 && name.len() >= 37 ==> reports::short_name(name)
            == name.take(37) + "..."@,
        vstd::utf8::encode_utf8(name).len() > 40 && name.len() < 37 ==> reports::short_name(name)
            == name + "..."@,
{
    assert(name.take(name.len() as int) =~= name);
}

/// What was uploaded over what was downloaded, with two decimals; a dash when nothing
/// was downloaded.
pub proof fn law_share_of_a_torrent(up: i64, down: i64)
    ensures
        down <= 0 ==> reports::share_text(up, down) == "—"@,
        down > 0 && up >= 0 ==> reports::share_text(up, down) == decimal::hundredths_text(
            decimal::ratio_hundredths(up as nat, down as nat),
        ),
        down > 0 && up < 0 ==> reports::share_text(up, down) == "-"@ + decimal::hundredths_text(
            decimal::ratio_hundredths((-up) as nat, down as nat),
        ),
{
}

} // verus!
