//! How numbers and rules read in the window.
//!
//! Amounts are shown in base-1024 units, with one or two decimals. The decimals
//! are rounded to the nearest, ties to even. An amount of more than 53
//! significant bits counts as the nearest one that has 53, as a double would.

use crate::text::{decimal, decimal_text, digit, digit_text};
use crate::types::{Rule, RuleView};
use vstd::prelude::*;
use vstd::string::*;

verus! {

broadcast use vstd::string::group_string_axioms;

pub const KB: u64 = 1024;
pub const MB: u64 = 1_048_576;
pub const GB: u64 = 1_073_741_824;
pub const TB: u64 = 1_099_511_627_776;

/// Two to the 53rd power: what takes no more bits than a double's significand.
pub const SIGNIFICAND: u64 = 9_007_199_254_740_992;

/// `n / unit` rounded to the nearest whole number, ties to even.
pub open spec fn nearest(n: nat, unit: nat) -> nat {
    let (q, r) = (n / unit, n % unit);
    if 2 * r > unit || (2 * r == unit && q % 2 == 1) {
        q + 1
    } else {
        q
    }
}

/// What the last of 53 significant bits of `n` is worth.
pub open spec fn last_bit(n: nat) -> nat
    decreases n,
{
    if n < SIGNIFICAND {
        1
    } else {
        2 * last_bit(n / 2)
    }
}

/// The amount that `n` counts as: the nearest with 53 significant bits.
pub open spec fn amount(n: u64) -> nat {
    nearest(n as nat, last_bit(n as nat)) * last_bit(n as nat)
}

/// Compute [`last_bit`].
fn last_bit_of(n: u64) -> (bit: u64)
    ensures
        bit == last_bit(n as nat),
        1 <= bit <= 4096,
        n >= SIGNIFICAND ==> bit * 4_503_599_627_370_496 <= n,
    decreases n,
{
    if n < SIGNIFICAND {
        1
    } else {
        2 * last_bit_of(n / 2)
    }
}

/// Compute [`nearest`].
fn nearest_whole(n: u128, unit: u128) -> (whole: u128)
    requires
        0 < unit <= 0x1_0000_0000_0000_0000,
    ensures
        whole == nearest(n as nat, unit as nat),
        n / unit <= whole <= n / unit + 1,
{
    let (q, r): (u128, u128) = (n / unit, n % unit);
    if 2 * r > unit || (2 * r == unit && q % 2 == 1) {
        assert(q < u128::MAX) by (nonlinear_arith)
            requires
                unit > 0,
                q == n / unit,
                r == n % unit,
                2 * r >= unit,
                n <= u128::MAX,
        ;
        q + 1
    } else {
        q
    }
}

/// Compute [`amount`].
fn amount_of(n: u64) -> (counted: u128)
    ensures
        counted == amount(n),
        counted <= 0x1_0000_0000_0000_2000,
{
    let bit = last_bit_of(n);
    let whole = nearest_whole(n as u128, bit as u128);
    assert(whole * bit <= n + bit) by (nonlinear_arith)
        requires
            whole <= n / bit + 1,
            bit > 0,
    ;
    whole * (bit as u128)
}

/// Amounts of up to 53 bits, some nine million gigabytes, count as they are.
pub proof fn law_small_amounts_are_exact(n: u64)
    requires
        n < SIGNIFICAND,
    ensures
        amount(n) == n,
{
    assert(last_bit(n as nat) == 1);
    assert(nearest(n as nat, 1) == n);
}

/// What is shown of an amount is off by half of its last decimal at most.
pub proof fn law_rounding_is_close(n: nat, unit: nat)
    requires
        unit > 0,
    ensures
        2 * n <= 2 * nearest(n, unit) * unit + unit,
        2 * nearest(n, unit) * unit <= 2 * n + unit,
{
    let (q, r) = (n / unit, n % unit);
    assert(n == q * unit + r && 0 <= r < unit) by (nonlinear_arith)
        requires
            unit > 0,
            q == n / unit,
            r == n % unit,
    ;
    assert(2 * q * unit == 2 * (q * unit)) by (nonlinear_arith);
    assert(2 * (q + 1) * unit == 2 * (q * unit) + 2 * unit) by (nonlinear_arith);
}

/// A number of tenths as text.
pub open spec fn with_tenths(n: nat) -> Seq<char> {
    decimal(n / 10) + seq!['.', digit(n % 10)]
}

/// A number of hundredths as text.
pub open spec fn with_hundredths(n: nat) -> Seq<char> {
    decimal(n / 100) + seq!['.', digit(n / 10 % 10), digit(n % 10)]
}

/// Write a number of tenths.
fn tenths_text(n: u64) -> (s: String)
    ensures
        s@ == with_tenths(n as nat),
{
    proof {
        reveal_strlit(".");
    }
    let mut s = decimal_text(n / 10);
    s.append(".");
    s.append(digit_text(n % 10));
    assert(s@ =~= with_tenths(n as nat));
    s
}

/// Write a number of hundredths.
fn hundredths_text(n: u64) -> (s: String)
    ensures
        s@ == with_hundredths(n as nat),
{
    proof {
        reveal_strlit(".");
    }
    let mut s = decimal_text(n / 100);
    s.append(".");
    s.append(digit_text(n / 10 % 10));
    s.append(digit_text(n % 10));
    assert(s@ =~= with_hundredths(n as nat));
    s
}

/// An amount in a unit, with one decimal.
pub open spec fn in_tenths(n: nat, unit: u64) -> Seq<char> {
    with_tenths(nearest(10 * n, unit as nat))
}

/// An amount in a unit, with two decimals.
pub open spec fn in_hundredths(n: nat, unit: u64) -> Seq<char> {
    with_hundredths(nearest(100 * n, unit as nat))
}

/// Write an amount with one decimal.
fn tenths_of(n: u128, unit: u64) -> (s: String)
    requires
        n < MB,
        unit > 0,
    ensures
        s@ == in_tenths(n as nat, unit),
{
    let whole = nearest_whole(10 * n, unit as u128);
    assert(whole <= 10 * n + 1) by (nonlinear_arith)
        requires
            whole <= (10 * n) / (unit as int) + 1,
            unit > 0,
    ;
    tenths_text(whole as u64)
}

/// Hundredths of an amount in a unit.
fn hundredths_of(n: u128, unit: u64) -> (whole: u64)
    requires
        n <= 0x1_0000_0000_0000_2000,
        unit >= 1,
        n >= KB ==> unit >= KB,
    ensures
        whole == nearest(100 * n as nat, unit as nat),
{
    let whole = nearest_whole(100 * n, unit as u128);
    assert(whole <= u64::MAX) by {
        if unit >= KB {
            assert((100 * n) / (unit as int) <= (100 * n) / 1024) by (nonlinear_arith)
                requires
                    unit >= 1024,
                    n >= 0,
            ;
        } else {
            assert((100 * n) / (unit as int) <= 100 * n) by (nonlinear_arith)
                requires
                    unit >= 1,
                    n >= 0,
            ;
        }
    }
    whole as u64
}

/// How a rate of so many bytes per second reads.
pub open spec fn rate(bps: u64) -> Seq<char> {
    let b = amount(bps);
    if b >= GB {
        in_hundredths(b, GB) + " GB/s"@
    } else if b >= MB {
        in_hundredths(b, MB) + " MB/s"@
    } else if b >= KB {
        in_tenths(b, KB) + " KB/s"@
    } else {
        decimal(bps as nat) + " B/s"@
    }
}

/// Humanize a byte-per-second rate using base-1024 units.
pub fn humanize_rate(bps: u64) -> (s: String)
    ensures
        s@ == rate(bps),
{
    let b = amount_of(bps);
    let mut s: String;
    if b >= GB as u128 {
        s = hundredths_text(hundredths_of(b, GB));
        s.append(" GB/s");
    } else if b >= MB as u128 {
        s = hundredths_text(hundredths_of(b, MB));
        s.append(" MB/s");
    } else if b >= KB as u128 {
        s = tenths_of(b, KB);
        s.append(" KB/s");
    } else {
        s = decimal_text(bps);
        s.append(" B/s");
    }
    s
}

/// How a total of so many bytes reads.
pub open spec fn size(bytes: u64) -> Seq<char> {
    let b = amount(bytes);
    if b >= TB {
        in_hundredths(b, TB) + " TB"@
    } else if b >= GB {
        in_hundredths(b, GB) + " GB"@
    } else if b >= MB {
        in_hundredths(b, MB) + " MB"@
    } else if b >= KB {
        in_tenths(b, KB) + " KB"@
    } else {
        decimal(bytes as nat) + " B"@
    }
}

/// Humanize a plain byte total using base-1024 units.
pub fn humanize_bytes(bytes: u64) -> (s: String)
    ensures
        s@ == size(bytes),
{
    let b = amount_of(bytes);
    let mut s: String;
    if b >= TB as u128 {
        s = hundredths_text(hundredths_of(b, TB));
        s.append(" TB");
    } else if b >= GB as u128 {
        s = hundredths_text(hundredths_of(b, GB));
        s.append(" GB");
    } else if b >= MB as u128 {
        s = hundredths_text(hundredths_of(b, MB));
        s.append(" MB");
    } else if b >= KB as u128 {
        s = tenths_of(b, KB);
        s.append(" KB");
    } else {
        s = decimal_text(bytes);
        s.append(" B");
    }
    s
}

/// Rate unit for the limit dialog's dropdown (base 1024).
#[derive(Clone, Copy, PartialEq, Eq, Structural, Debug)]
pub enum RateUnit {
    Bps,
    KBps,
    MBps,
    GBps,
}

impl RateUnit {
    /// Every unit, the smallest first.
    pub fn all() -> (units: [RateUnit; 4])
        ensures
            units@ == seq![RateUnit::Bps, RateUnit::KBps, RateUnit::MBps, RateUnit::GBps],
    {
        [RateUnit::Bps, RateUnit::KBps, RateUnit::MBps, RateUnit::GBps]
    }

    /// How the unit reads.
    pub fn label(self) -> (s: &'static str)
        ensures
            s@ == (match self {
                RateUnit::Bps => "B/s"@,
                RateUnit::KBps => "KB/s"@,
                RateUnit::MBps => "MB/s"@,
                RateUnit::GBps => "GB/s"@,
            }),
    {
        match self {
            RateUnit::Bps => "B/s",
            RateUnit::KBps => "KB/s",
            RateUnit::MBps => "MB/s",
            RateUnit::GBps => "GB/s",
        }
    }

    /// How many bytes per second one of the unit is.
    pub open spec fn worth(self) -> u64 {
        match self {
            RateUnit::Bps => 1,
            RateUnit::KBps => KB,
            RateUnit::MBps => MB,
            RateUnit::GBps => GB,
        }
    }

    /// How many bytes per second one of the unit is.
    pub fn multiplier(self) -> (bytes: u64)
        ensures
            bytes == self.worth(),
    {
        match self {
            RateUnit::Bps => 1,
            RateUnit::KBps => KB,
            RateUnit::MBps => MB,
            RateUnit::GBps => GB,
        }
    }

    /// The largest unit of which the amount holds at least one.
    pub open spec fn largest(b: nat) -> RateUnit {
        if b >= GB {
            RateUnit::GBps
        } else if b >= MB {
            RateUnit::MBps
        } else if b >= KB {
            RateUnit::KBps
        } else {
            RateUnit::Bps
        }
    }

    /// Split a byte rate into (hundredths of the unit, unit) using the largest
    /// unit >= 1.
    pub fn decompose(bps: u64) -> (split: (u64, RateUnit))
        ensures
            split.1 == RateUnit::largest(amount(bps)),
            split.0 == nearest(100 * amount(bps), split.1.worth() as nat),
    {
        let b = amount_of(bps);
        let unit = if b >= GB as u128 {
            RateUnit::GBps
        } else if b >= MB as u128 {
            RateUnit::MBps
        } else if b >= KB as u128 {
            RateUnit::KBps
        } else {
            RateUnit::Bps
        };
        (hundredths_of(b, unit.multiplier()), unit)
    }
}

/// A number of hundredths without trailing zeros, for a clean editable number.
pub open spec fn trimmed_hundredths(n: nat) -> Seq<char> {
    if n % 100 == 0 {
        decimal(n / 100)
    } else if n % 10 == 0 {
        with_tenths(n / 10)
    } else {
        with_hundredths(n)
    }
}

/// Write a number of hundredths without trailing zeros.
pub fn editable_text(n: u64) -> (s: String)
    ensures
        s@ == trimmed_hundredths(n as nat),
{
    if n % 100 == 0 {
        decimal_text(n / 100)
    } else if n % 10 == 0 {
        tenths_text(n / 10)
    } else {
        hundredths_text(n)
    }
}

/// How a rule reads in one line.
pub open spec fn summary(rule: Option<RuleView>) -> Seq<char> {
    match rule {
        None => "-"@,
        Some(rule) => if rule.blocked {
            "BLOCKED"@
        } else {
            match (rule.down_limit, rule.up_limit) {
                (None, None) => "-"@,
                (Some(d), None) => "Dn "@ + rate(d),
                (None, Some(u)) => "Up "@ + rate(u),
                (Some(d), Some(u)) => "Dn "@ + rate(d) + "  "@ + "Up "@ + rate(u),
            }
        },
    }
}

/// A rule that may be absent.
pub open spec fn optional_rule(rule: Option<&Rule>) -> Option<RuleView> {
    match rule {
        Some(rule) => Some(rule@),
        None => None,
    }
}

/// One-line summary of a rule for the table column.
pub fn rule_summary(rule: Option<&Rule>) -> (s: String)
    ensures
        s@ == summary(optional_rule(rule)),
{
    let rule = match rule {
        None => return "-".to_string(),
        Some(rule) => rule,
    };
    if rule.blocked {
        return "BLOCKED".to_string();
    }
    let mut s = String::new();
    match rule.down_limit {
        Some(d) => {
            s.append("Dn ");
            s.append(humanize_rate(d).as_str());
            assert(s@ =~= "Dn "@ + rate(d));
            if rule.up_limit.is_some() {
                s.append("  ");
            }
        },
        None => {
            if rule.up_limit.is_none() {
                return "-".to_string();
            }
        },
    }
    match rule.up_limit {
        Some(u) => {
            s.append("Up ");
            s.append(humanize_rate(u).as_str());
        },
        None => {},
    }
    assert(s@ =~= summary(Some(rule@)));
    s
}

} // verus!
