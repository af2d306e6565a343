//! What the program was started for.

use crate::text::{characters, same_text};
use vstd::prelude::*;

verus! {

/// How long a headless run lasts unless said otherwise, in seconds.
pub const HEADLESS_SECS: u64 = 15;

/// What to do.
#[derive(Clone, Copy, PartialEq, Eq, Structural, Debug)]
pub enum Mode {
    /// Write the icon to a file and exit.
    GenIcon,
    /// Run the backend without a window for so many seconds.
    Headless(u64),
    /// Open the window.
    Gui,
}

/// The value of a decimal numeral.
pub open spec fn numeral(digits: Seq<char>) -> nat
    decreases digits.len(),
{
    if digits.len() == 0 {
        0
    } else {
        numeral(digits.drop_last()) * 10 + (digits.last() as nat - '0' as nat) as nat
    }
}

/// Whether a text is made of decimal digits, at least one.
pub open spec fn is_numeral(text: Seq<char>) -> bool {
    text.len() > 0 && forall|i: int| 0 <= i < text.len() ==> '0' <= #[trigger] text[i] <= '9'
}

/// A text without a plus sign in front.
pub open spec fn without_plus(text: Seq<char>) -> Seq<char> {
    if text.len() > 0 && text[0] == '+' {
        text.drop_first()
    } else {
        text
    }
}

/// The whole number that a text spells, if it spells one that fits.
pub open spec fn whole_number(text: Seq<char>) -> Option<u64> {
    let digits = without_plus(text);
    if is_numeral(digits) && numeral(digits) <= u64::MAX {
        Some(numeral(digits) as u64)
    } else {
        None
    }
}

/// More digits never make the number smaller.
proof fn lemma_numeral_grows(digits: Seq<char>, i: int)
    requires
        0 <= i <= digits.len(),
    ensures
        numeral(digits.take(i)) <= numeral(digits),
    decreases digits.len(),
{
    if i < digits.len() {
        lemma_numeral_grows(digits.drop_last(), i);
        assert(digits.drop_last().take(i) =~= digits.take(i));
    } else {
        assert(digits.take(i) =~= digits);
    }
}

/// Read a whole number: decimal digits, with a plus sign before them or none.
pub fn parse_whole(text: &str) -> (n: Option<u64>)
    ensures
        n == whole_number(text@),
{
    let chars = characters(text);
    let from: usize = if chars.len() > 0 && chars[0] == '+' {
        1
    } else {
        0
    };
    let ghost digits = without_plus(text@);
    assert(digits =~= text@.skip(from as int));
    if from == chars.len() {
        return None;
    }
    let mut n: u64 = 0;
    let mut i: usize = from;
    assert(digits.take(0) =~= Seq::<char>::empty());
    while i < chars.len()
        invariant
            from <= i <= chars.len(),
            chars@ == text@,
            digits == text@.skip(from as int),
            digits == without_plus(text@),
            n == numeral(digits.take(i - from)),
            forall|k: int| 0 <= k < i - from ==> '0' <= #[trigger] digits[k] <= '9',
        decreases chars.len() - i,
    {
        let c = chars[i];
        assert(digits[i - from] == c);
        if c < '0' || c > '9' {
            return None;
        }
        let d: u64 = (c as u64) - 48;
        let ghost k = i - from;
        proof {
            assert(digits.take(k + 1).drop_last() =~= digits.take(k));
            assert(digits.take(k + 1).last() == c);
            lemma_numeral_grows(digits, k + 1);
        }
        if n > (u64::MAX - d) / 10 {
            return None;
        }
        n = n * 10 + d;
        i = i + 1;
    }
    assert(digits.take(i - from) =~= digits);
    Some(n)
}

/// Whether an argument reads so.
pub open spec fn is_arg(arg: String, wanted: Seq<char>) -> bool {
    arg@ == wanted
}

/// Where an argument first stands, if it does.
fn find_arg(args: &Vec<String>, wanted: &str) -> (found: Option<usize>)
    ensures
        match found {
            Some(i) => {
                &&& i < args.len()
                &&& is_arg(args@[i as int], wanted@)
                &&& forall|k: int| 0 <= k < i ==> !is_arg(#[trigger] args@[k], wanted@)
            },
            None => forall|k: int| 0 <= k < args.len() ==> !is_arg(#[trigger] args@[k], wanted@),
        },
{
    let mut i: usize = 0;
    while i < args.len()
        invariant
            i <= args.len(),
            forall|k: int| 0 <= k < i ==> !is_arg(#[trigger] args@[k], wanted@),
        decreases args.len() - i,
    {
        if same_text(args[i].as_str(), wanted) {
            return Some(i);
        }
        i = i + 1;
    }
    None
}

/// Whether an argument is among those given.
pub open spec fn given(args: Seq<String>, wanted: Seq<char>) -> bool {
    exists|k: int| 0 <= k < args.len() && is_arg(#[trigger] args[k], wanted)
}

/// Whether an argument stands first at `i`.
pub open spec fn first_at(args: Seq<String>, wanted: Seq<char>, i: int) -> bool {
    &&& 0 <= i < args.len()
    &&& is_arg(args[i], wanted)
    &&& forall|k: int| 0 <= k < i ==> !is_arg(#[trigger] args[k], wanted)
}

/// How long a headless run lasts: what the argument after the first
/// `--headless` says, if it is a whole number.
pub open spec fn headless_secs(args: Seq<String>) -> u64 {
    let i = choose|i: int| first_at(args, "--headless"@, i);
    if i + 1 < args.len() {
        match whole_number(args[i + 1]@) {
            Some(secs) => secs,
            None => HEADLESS_SECS,
        }
    } else {
        HEADLESS_SECS
    }
}

/// Decide what to do from the command line.
pub fn mode(args: &Vec<String>) -> (mode: Mode)
    ensures
        mode == (if given(args@, "--gen-icon"@) {
            Mode::GenIcon
        } else if given(args@, "--headless"@) {
            Mode::Headless(headless_secs(args@))
        } else {
            Mode::Gui
        }),
{
    if find_arg(args, "--gen-icon").is_some() {
        return Mode::GenIcon;
    }
    match find_arg(args, "--headless") {
        Some(i) => {
            proof {
                let first = choose|k: int| first_at(args@, "--headless"@, k);
                assert(first_at(args@, "--headless"@, i as int));
                assert(first == i) by {
                    if first < i {
                        assert(!is_arg(args@[first], "--headless"@));
                    }
                    if i < first {
                        assert(!is_arg(args@[i as int], "--headless"@));
                    }
                }
            }
            if i + 1 < args.len() {
                match parse_whole(args[i + 1].as_str()) {
                    Some(secs) => Mode::Headless(secs),
                    None => Mode::Headless(HEADLESS_SECS),
                }
            } else {
                Mode::Headless(HEADLESS_SECS)
            }
        },
        None => Mode::Gui,
    }
}

} // verus!
