//! Texts that the program writes and reads, and that they say what they are
//! meant to.

use crate::cli::{
    first_at, given, headless_secs, is_arg, is_numeral, numeral, whole_number, without_plus,
};
use crate::gui::format::{
    amount, last_bit, law_small_amounts_are_exact, nearest, rate, size, summary, trimmed_hundredths,
    with_hundredths, with_tenths, RateUnit,
};
use crate::text::{
    decimal, digit, trimmed, trimmed_end, trimmed_start, utf16_text, whitespace, with_points,
};
use crate::types::RuleView;
use vstd::arithmetic::power2::{lemma2_to64, lemma_pow2_unfold, pow2};
use vstd::prelude::*;

verus! {

/// A numeral reads back as the number it was written for. It has digits only, and
/// does not begin with a zero unless it is one.
pub proof fn law_numerals_read_back(n: nat)
    ensures
        is_numeral(decimal(n)),
        numeral(decimal(n)) == n,
        n > 0 ==> decimal(n)[0] != '0',
        n == 0 ==> decimal(n) == seq!['0'],
    decreases n,
{
    let s = decimal(n);
    if n < 10 {
        lemma_digit(n);
        assert(s.drop_last() =~= Seq::<char>::empty());
        assert(numeral(s.drop_last()) == 0);
    } else {
        lemma_digit(n % 10);
        law_numerals_read_back(n / 10);
        assert(s.drop_last() =~= decimal(n / 10));
        assert forall|i: int| 0 <= i < s.len() implies '0' <= #[trigger] s[i] <= '9' by {
            if i < s.len() - 1 {
                assert(s[i] == decimal(n / 10)[i]);
            }
        }
        assert(s[0] == decimal(n / 10)[0]);
    }
}

proof fn lemma_digit(d: nat)
    requires
        d < 10,
    ensures
        digit(d) as nat == '0' as nat + d,
        '0' <= digit(d) <= '9',
{
}

/// What a digit stands for.
pub open spec fn digit_value(c: char) -> int {
    c as int - '0' as int
}

/// A text with one decimal reads back as the number of tenths.
pub proof fn law_tenths_read_back(n: nat)
    ensures
        ({
            let s = with_tenths(n);
            let m = s.len() as int;
            &&& m >= 3
            &&& is_numeral(s.take(m - 2))
            &&& s[m - 2] == '.'
            &&& '0' <= s[m - 1] <= '9'
            &&& 10 * numeral(s.take(m - 2)) + digit_value(s[m - 1]) == n
        }),
{
    law_numerals_read_back(n / 10);
    lemma_digit(n % 10);
    let s = with_tenths(n);
    assert(s.take(s.len() - 2) =~= decimal(n / 10));
}

/// A text with two decimals reads back as the number of hundredths.
pub proof fn law_hundredths_read_back(n: nat)
    ensures
        ({
            let s = with_hundredths(n);
            let m = s.len() as int;
            &&& m >= 4
            &&& is_numeral(s.take(m - 3))
            &&& s[m - 3] == '.'
            &&& '0' <= s[m - 2] <= '9'
            &&& '0' <= s[m - 1] <= '9'
            &&& 100 * numeral(s.take(m - 3)) + 10 * digit_value(s[m - 2]) + digit_value(s[m - 1])
                == n
        }),
{
    law_numerals_read_back(n / 100);
    lemma_digit(n / 10 % 10);
    lemma_digit(n % 10);
    let s = with_hundredths(n);
    assert(s.take(s.len() - 3) =~= decimal(n / 100));
}

/// An editable number reads back as the number of hundredths, and has no decimals
/// that say nothing.
pub proof fn law_editable_numbers_read_back(n: nat)
    ensures
        ({
            let s = trimmed_hundredths(n);
            let m = s.len() as int;
            ||| is_numeral(s) && 100 * numeral(s) == n
            ||| {
                &&& m >= 3
                &&& is_numeral(s.take(m - 2))
                &&& s[m - 2] == '.'
                &&& '0' < s[m - 1] <= '9'
                &&& 100 * numeral(s.take(m - 2)) + 10 * digit_value(s[m - 1]) == n
            }
            ||| {
                &&& m >= 4
                &&& is_numeral(s.take(m - 3))
                &&& s[m - 3] == '.'
                &&& '0' <= s[m - 2] <= '9'
                &&& '0' < s[m - 1] <= '9'
                &&& 100 * numeral(s.take(m - 3)) + 10 * digit_value(s[m - 2]) + digit_value(
                    s[m - 1],
                ) == n
            }
        }),
{
    law_numerals_read_back(n / 100);
    law_tenths_read_back(n / 10);
    law_hundredths_read_back(n);
    lemma_digit(n / 10 % 10);
    lemma_digit(n % 10);
    assert(n / 10 / 10 == n / 100);
}

/// Whether `whole` is `n / unit` rounded to the nearest whole number, ties to even.
pub open spec fn rounds_to(n: nat, unit: nat, whole: nat) -> bool {
    &&& 2 * n <= 2 * (whole * unit) + unit
    &&& 2 * (whole * unit) <= 2 * n + unit
    &&& 2 * n == 2 * (whole * unit) + unit ==> whole % 2 == 0
    &&& 2 * (whole * unit) == 2 * n + unit ==> whole % 2 == 0
}

/// What is shown is the nearest number that can be, and of two as near the even
/// one.
pub proof fn law_rounding_goes_to_the_nearest(n: nat, unit: nat)
    requires
        unit > 0,
    ensures
        rounds_to(n, unit, nearest(n, unit)),
{
    let (q, r) = (n / unit, n % unit);
    assert(n == q * unit + r && 0 <= r < unit) by (nonlinear_arith)
        requires
            unit > 0,
            q == n / unit,
            r == n % unit,
    ;
    assert((q + 1) * unit == q * unit + unit) by (nonlinear_arith);
    assert(q % 2 == 1 ==> (q + 1) % 2 == 0);
}

/// An amount of up to 53 bits counts as it is. A larger one counts as the nearest
/// whole number of a power of two, which is so large that 53 bits are left.
pub proof fn law_amounts_have_53_bits(n: u64)
    ensures
        n <= 9_007_199_254_740_992 ==> amount(n) == n,
        n >= 9_007_199_254_740_992 ==> exists|k: nat, whole: nat|
            {
                &&& #[trigger] rounds_to(n as nat, pow2(k), whole)
                &&& amount(n) == whole * pow2(k)
                &&& pow2(k) * 4_503_599_627_370_496 <= n < pow2(k) * 9_007_199_254_740_992
            },
{
    if n < 9_007_199_254_740_992 {
        law_small_amounts_are_exact(n);
    } else {
        let k = lemma_last_bit(n as nat);
        law_rounding_goes_to_the_nearest(n as nat, pow2(k));
        let whole = nearest(n as nat, pow2(k));
        assert(rounds_to(n as nat, pow2(k), whole));
        if n == 9_007_199_254_740_992 {
            reveal_with_fuel(last_bit, 3);
            assert(last_bit(n as nat) == 2);
            assert(nearest(n as nat, 2) == 4_503_599_627_370_496);
            let bit = last_bit(n as nat);
            assert(nearest(n as nat, bit) * bit == 9_007_199_254_740_992) by (nonlinear_arith)
                requires
                    nearest(n as nat, bit) == 4_503_599_627_370_496,
                    bit == 2,
            ;
        }
    }
}

proof fn lemma_last_bit(n: nat) -> (k: nat)
    requires
        n >= 9_007_199_254_740_992,
    ensures
        last_bit(n) == pow2(k),
        pow2(k) >= 1,
        pow2(k) * 4_503_599_627_370_496 <= n < pow2(k) * 9_007_199_254_740_992,
    decreases n,
{
    lemma2_to64();
    if n < 18_014_398_509_481_984 {
        reveal_with_fuel(last_bit, 3);
        assert(last_bit(n / 2) == 1);
        1
    } else {
        let k = lemma_last_bit(n / 2);
        lemma_pow2_unfold(k + 1);
        k + 1
    }
}

/// What stands for an amount with one decimal in a unit.
pub open spec fn shows_tenths(text: Seq<char>, b: nat, unit: nat, label: Seq<char>) -> bool {
    exists|t: nat| #[trigger] rounds_to(10 * b, unit, t) && text == with_tenths(t) + label
}

/// What stands for an amount with two decimals in a unit.
pub open spec fn shows_hundredths(text: Seq<char>, b: nat, unit: nat, label: Seq<char>) -> bool {
    exists|t: nat| #[trigger] rounds_to(100 * b, unit, t) && text == with_hundredths(t) + label
}

/// A rate is shown in the largest unit of which it holds at least one: below a
/// kilobyte as it is, in kilobytes to the nearest tenth, in mega- and gigabytes to
/// the nearest hundredth.
pub proof fn law_rates_are_shown_in_their_unit(bps: u64)
    ensures
        ({
            let b = amount(bps);
            &&& b < 1024 ==> rate(bps) == decimal(bps as nat) + " B/s"@
            &&& 1024 <= b < 1_048_576 ==> shows_tenths(rate(bps), b, 1024, " KB/s"@)
            &&& 1_048_576 <= b < 1_073_741_824 ==> shows_hundredths(
                rate(bps),
                b,
                1_048_576,
                " MB/s"@,
            )
            &&& 1_073_741_824 <= b ==> shows_hundredths(rate(bps), b, 1_073_741_824, " GB/s"@)
        }),
{
    let b = amount(bps);
    law_rounding_goes_to_the_nearest(10 * b, 1024);
    law_rounding_goes_to_the_nearest(100 * b, 1_048_576);
    law_rounding_goes_to_the_nearest(100 * b, 1_073_741_824);
}

/// A total is shown like a rate, with terabytes as the largest unit.
pub proof fn law_totals_are_shown_in_their_unit(bytes: u64)
    ensures
        ({
            let b = amount(bytes);
            &&& b < 1024 ==> size(bytes) == decimal(bytes as nat) + " B"@
            &&& 1024 <= b < 1_048_576 ==> shows_tenths(size(bytes), b, 1024, " KB"@)
            &&& 1_048_576 <= b < 1_073_741_824 ==> shows_hundredths(
                size(bytes),
                b,
                1_048_576,
                " MB"@,
            )
            &&& 1_073_741_824 <= b < 1_099_511_627_776 ==> shows_hundredths(
                size(bytes),
                b,
                1_073_741_824,
                " GB"@,
            )
            &&& 1_099_511_627_776 <= b ==> shows_hundredths(
                size(bytes),
                b,
                1_099_511_627_776,
                " TB"@,
            )
        }),
{
    let b = amount(bytes);
    law_rounding_goes_to_the_nearest(10 * b, 1024);
    law_rounding_goes_to_the_nearest(100 * b, 1_048_576);
    law_rounding_goes_to_the_nearest(100 * b, 1_073_741_824);
    law_rounding_goes_to_the_nearest(100 * b, 1_099_511_627_776);
}

/// Each unit is 1024 of the one before, and an amount is split in the largest of
/// which it holds at least one, or else in bytes.
pub proof fn law_units_go_by_1024(b: nat)
    ensures
        RateUnit::Bps.worth() == 1,
        RateUnit::KBps.worth() == 1024 * RateUnit::Bps.worth(),
        RateUnit::MBps.worth() == 1024 * RateUnit::KBps.worth(),
        RateUnit::GBps.worth() == 1024 * RateUnit::MBps.worth(),
        b > 0 ==> RateUnit::largest(b).worth() <= b,
        forall|unit: RateUnit|
            (#[trigger] unit.worth()) <= b ==> unit.worth() <= RateUnit::largest(b).worth(),
        b == 0 ==> RateUnit::largest(b) == RateUnit::Bps,
{
}

/// A rule's summary: blocking hides the limits; without limits there is nothing to
/// say; two limits are summed up one after the other, the download first.
pub proof fn law_summaries_name_the_limits(rule: RuleView, down: u64, up: u64)
    ensures
        summary(None) == "-"@,
        rule.blocked ==> summary(Some(rule)) == "BLOCKED"@,
        !rule.blocked && rule.down_limit is None && rule.up_limit is None ==> summary(Some(rule))
            == "-"@,
        !rule.blocked && rule.down_limit == Some(down) && rule.up_limit is None ==> summary(
            Some(rule),
        ) == "Dn "@ + rate(down),
        !rule.blocked && rule.down_limit is None && rule.up_limit == Some(up) ==> summary(
            Some(rule),
        ) == "Up "@ + rate(up),
        !rule.blocked && rule.down_limit == Some(down) && rule.up_limit == Some(up) ==> summary(
            Some(rule),
        ) == summary(Some(RuleView { up_limit: None, ..rule })) + "  "@ + summary(
            Some(RuleView { down_limit: None, ..rule }),
        ),
{
    if !rule.blocked && rule.down_limit == Some(down) && rule.up_limit == Some(up) {
        let parts = "Dn "@ + rate(down) + "  "@ + ("Up "@ + rate(up));
        assert(summary(Some(rule)) =~= parts);
    }
}

/// Reading digits: each one more is ten times what stands before it and itself.
pub proof fn law_digits_count_by_ten(digits: Seq<char>, c: char)
    requires
        '0' <= c <= '9',
    ensures
        numeral(Seq::empty()) == 0,
        numeral(digits.push(c)) == 10 * numeral(digits) + digit_value(c),
{
    assert(digits.push(c).drop_last() =~= digits);
}

/// A number in decimal is read as what it is, with or without a plus sign. What
/// holds anything but digits behind that sign is no number, nor is one that does
/// not fit.
pub proof fn law_whole_numbers_are_read(n: u64, text: Seq<char>, i: int)
    ensures
        whole_number(decimal(n as nat)) == Some(n),
        whole_number(seq!['+'] + decimal(n as nat)) == Some(n),
        whole_number(Seq::empty()) is None,
        whole_number(seq!['+']) is None,
        1 <= i < text.len() && !('0' <= text[i] <= '9') ==> whole_number(text) is None,
        text.len() > 0 && text[0] != '+' && !('0' <= text[0] <= '9') ==> whole_number(text)
            is None,
        is_numeral(text) && numeral(text) > u64::MAX ==> whole_number(text) is None,
{
    law_numerals_read_back(n as nat);
    let s = decimal(n as nat);
    assert('0' <= s[0] <= '9');
    assert(without_plus(s) == s);
    assert((seq!['+'] + s).drop_first() =~= s);
    assert(seq!['+'].drop_first() =~= Seq::<char>::empty());
    if 1 <= i < text.len() && !('0' <= text[i] <= '9') {
        let digits = without_plus(text);
        if text[0] == '+' {
            assert(digits[i - 1] == text[i]);
        } else {
            assert(digits[i] == text[i]);
        }
    }
    if text.len() > 0 && text[0] != '+' {
        assert(without_plus(text)[0] == text[0]);
    }
    if is_numeral(text) {
        assert('0' <= text[0] <= '9');
    }
}

/// An argument is given if it stands anywhere on the command line, and stands first
/// where none before it is the same.
pub proof fn law_arguments_are_found(args: Seq<String>, wanted: Seq<char>, i: int)
    requires
        0 <= i < args.len(),
    ensures
        args[i]@ == wanted ==> given(args, wanted),
        first_at(args, wanted, i) ==> args[i]@ == wanted,
        first_at(args, wanted, i) ==> forall|k: int| 0 <= k < i ==> (#[trigger] args[k])@ != wanted,
        args[i]@ == wanted && (forall|k: int| 0 <= k < i ==> (#[trigger] args[k])@ != wanted)
            ==> first_at(args, wanted, i),
        given(args, wanted) ==> exists|k: int|
            0 <= k < args.len() && (#[trigger] args[k])@ == wanted,
{
    if args[i]@ == wanted {
        assert(is_arg(args[i], wanted));
    }
    if first_at(args, wanted, i) {
        assert forall|k: int| 0 <= k < i implies (#[trigger] args[k])@ != wanted by {
            assert(!is_arg(args[k], wanted));
        }
    }
    if given(args, wanted) {
        let k = choose|k: int| 0 <= k < args.len() && is_arg(#[trigger] args[k], wanted);
        assert(args[k]@ == wanted);
    }
}

/// A headless run lasts as many seconds as the argument behind the first
/// `--headless` says, and fifteen if that says nothing.
pub proof fn law_headless_runs_as_told(args: Seq<String>, i: int, secs: u64)
    requires
        first_at(args, "--headless"@, i),
    ensures
        i + 1 == args.len() ==> headless_secs(args) == 15,
        i + 1 < args.len() && whole_number(args[i + 1]@) is None ==> headless_secs(args) == 15,
        i + 1 < args.len() && args[i + 1]@ == decimal(secs as nat) ==> headless_secs(args) == secs,
{
    let first = choose|k: int| first_at(args, "--headless"@, k);
    if first < i {
        assert(!is_arg(args[first], "--headless"@));
    }
    if i < first {
        assert(!is_arg(args[i], "--headless"@));
    }
    law_whole_numbers_are_read(secs, Seq::empty(), 0);
}

/// Trimming takes white space off both ends, all of it, and nothing else.
pub proof fn law_trimming_takes_white_space_only(text: Seq<char>) -> (ends: (int, int))
    ensures
        0 <= ends.0 <= ends.1 <= text.len(),
        trimmed(text) == text.subrange(ends.0, ends.1),
        forall|i: int| 0 <= i < ends.0 ==> whitespace(#[trigger] text[i]),
        forall|i: int| ends.1 <= i < text.len() ==> whitespace(#[trigger] text[i]),
        ends.0 < ends.1 ==> !whitespace(text[ends.0]) && !whitespace(text[ends.1 - 1]),
{
    let from = lemma_trimmed_start(text);
    let rest = trimmed_start(text);
    let to = lemma_trimmed_end(rest);
    assert(rest.take(to) =~= text.subrange(from, from + to));
    assert forall|i: int| from + to <= i < text.len() implies whitespace(#[trigger] text[i]) by {
        assert(rest[i - from] == text[i]);
    }
    if 0 < to {
        assert(rest[0] == text[from]);
        assert(rest[to - 1] == text[from + to - 1]);
    }
    (from, from + to)
}

proof fn lemma_trimmed_start(text: Seq<char>) -> (from: int)
    ensures
        0 <= from <= text.len(),
        trimmed_start(text) == text.skip(from),
        forall|i: int| 0 <= i < from ==> whitespace(#[trigger] text[i]),
        from < text.len() ==> !whitespace(text[from]),
    decreases text.len(),
{
    if text.len() > 0 && whitespace(text[0]) {
        let rest = text.drop_first();
        let from = lemma_trimmed_start(rest);
        assert(rest.skip(from) =~= text.skip(from + 1));
        assert forall|i: int| 0 <= i < from + 1 implies whitespace(#[trigger] text[i]) by {
            if i > 0 {
                assert(rest[i - 1] == text[i]);
            }
        }
        from + 1
    } else {
        assert(text.skip(0) =~= text);
        0
    }
}

proof fn lemma_trimmed_end(text: Seq<char>) -> (to: int)
    ensures
        0 <= to <= text.len(),
        trimmed_end(text) == text.take(to),
        forall|i: int| to <= i < text.len() ==> whitespace(#[trigger] text[i]),
        0 < to ==> !whitespace(text[to - 1]),
    decreases text.len(),
{
    if text.len() > 0 && whitespace(text.last()) {
        let rest = text.drop_last();
        let to = lemma_trimmed_end(rest);
        assert(rest.take(to) =~= text.take(to));
        assert forall|i: int| to <= i < text.len() implies whitespace(#[trigger] text[i]) by {
            if i < rest.len() {
                assert(rest[i] == text[i]);
            }
        }
        to
    } else {
        assert(text.take(text.len() as int) =~= text);
        text.len() as int
    }
}

/// The code points of white space.
pub open spec fn white_space_codes() -> Seq<int> {
    seq![
        9,
        10,
        11,
        12,
        13,
        32,
        0x85,
        0xa0,
        0x1680,
        0x2000,
        0x2001,
        0x2002,
        0x2003,
        0x2004,
        0x2005,
        0x2006,
        0x2007,
        0x2008,
        0x2009,
        0x200a,
        0x2028,
        0x2029,
        0x202f,
        0x205f,
        0x3000,
    ]
}

/// White space are the characters with those code points, and no others.
pub proof fn law_white_space(c: char)
    ensures
        whitespace(c) <==> white_space_codes().contains(c as int),
{
    let codes = white_space_codes();
    if whitespace(c) {
        let i: int = if c as int <= 13 {
            c as int - 9
        } else if c as int == 32 {
            5
        } else if c as int == 0x85 {
            6
        } else if c as int == 0xa0 {
            7
        } else if c as int == 0x1680 {
            8
        } else if c as int <= 0x200a {
            c as int - 0x2000 + 9
        } else if c as int == 0x2028 {
            20
        } else if c as int == 0x2029 {
            21
        } else if c as int == 0x202f {
            22
        } else if c as int == 0x205f {
            23
        } else {
            24
        };
        assert(codes[i] == c as int);
    } else if codes.contains(c as int) {
        let i = choose|i: int| 0 <= i < codes.len() && codes[i] == c as int;
        assert(false);
    }
}

/// Every comma becomes a point; everything else stays, in its place.
pub proof fn law_commas_become_points(text: Seq<char>, i: int)
    requires
        0 <= i < text.len(),
    ensures
        with_points(text).len() == text.len(),
        text[i] == ',' ==> with_points(text)[i] == '.',
        text[i] != ',' ==> with_points(text)[i] == text[i],
{
}

/// A text in UTF-16 code units.
pub open spec fn utf16_units(text: Seq<char>) -> Seq<u16>
    decreases text.len(),
{
    if text.len() == 0 {
        Seq::empty()
    } else {
        let code = text[0] as int;
        let rest = utf16_units(text.drop_first());
        if code < 0x1_0000 {
            seq![code as u16] + rest
        } else {
            seq![
                (0xd800 + (code - 0x1_0000) / 0x400) as u16,
                (0xdc00 + (code - 0x1_0000) % 0x400) as u16,
            ] + rest
        }
    }
}

proof fn lemma_code_point(c: char)
    ensures
        0 <= c as int <= 0x10_ffff,
        !(0xd800 <= c as int <= 0xdfff),
{
}

/// A text in UTF-16 reads back as itself.
pub proof fn law_utf16_reads_back(text: Seq<char>)
    ensures
        utf16_text(utf16_units(text)) == text,
    decreases text.len(),
{
    let units = utf16_units(text);
    if text.len() == 0 {
        assert(utf16_text(units) =~= text);
    } else {
        let c: char = text[0];
        let code = c as int;
        lemma_code_point(c);
        let rest = utf16_units(text.drop_first());
        law_utf16_reads_back(text.drop_first());
        assert(text =~= seq![text[0]] + text.drop_first());
        if code < 0x1_0000 {
            assert(units =~= seq![code as u16] + rest);
            assert(units.skip(1) =~= rest);
            assert(units[0] == code as u16);
        } else {
            let (h, l) = ((code - 0x1_0000) / 0x400, (code - 0x1_0000) % 0x400);
            assert(units =~= seq![(0xd800 + h) as u16, (0xdc00 + l) as u16] + rest);
            assert(units.skip(2) =~= rest);
            assert(units[0] == 0xd800 + h && units[1] == 0xdc00 + l);
            assert(0x1_0000 + h * 0x400 + l == code);
        }
    }
}

} // verus!
