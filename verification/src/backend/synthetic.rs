//! Policy for the synthetic process rows.
//!
//! Two executable keys do not correspond to a real image path: traffic that
//! could not be attributed at all, and kernel-owned flows (PID 4). This module
//! owns those keys, how they are displayed, and the rule that the first is
//! never shaped, so the engine, the flow table, and the window agree on one
//! definition.

use crate::text::same_text;
use vstd::prelude::*;
use vstd::string::*;

verus! {

broadcast use vstd::string::group_string_axioms;

/// Pseudo executable path for traffic that could not be attributed to any
/// process. Shown as the "Unknown" row.
pub const UNKNOWN_EXE: &'static str = "<unknown>";

/// Pseudo executable path used for kernel-owned flows (PID 4).
pub const SYSTEM_EXE: &'static str = "system";

/// Whether shaping rules may be applied to this executable key.
///
/// Only the "Unknown" row is exempt: it is not a process but the shifting mix
/// of traffic we failed to identify, so a limit on it would be meaningless.
/// The kernel "System" row is a real, stable source (SMB, VPN tunnels, Windows
/// Update delivery) and may be shaped like any process; the window warns about
/// what it covers.
pub fn is_shapable(exe: &str) -> (shapable: bool)
    ensures
        shapable == (exe@ != UNKNOWN_EXE@),
{
    !same_text(exe, UNKNOWN_EXE)
}

/// Whether this key is the kernel "System" row, which the window annotates with
/// a warning before offering shaping actions.
pub fn is_system(exe: &str) -> (system: bool)
    ensures
        system == (exe@ == SYSTEM_EXE@),
{
    same_text(exe, SYSTEM_EXE)
}

/// Whether a character parts the components of a path.
pub open spec fn is_separator(c: char) -> bool {
    c == '\\' || c == '/'
}

/// The part of a path behind its last separator.
pub open spec fn last_component(path: Seq<char>) -> Seq<char>
    decreases path.len(),
{
    if path.len() == 0 || is_separator(path.last()) {
        Seq::empty()
    } else {
        last_component(path.drop_last()).push(path.last())
    }
}

/// How an executable key is displayed.
pub open spec fn shown_as(exe: Seq<char>) -> Seq<char> {
    if exe == UNKNOWN_EXE@ {
        "Unknown"@
    } else if exe == SYSTEM_EXE@ {
        "System"@
    } else {
        last_component(exe)
    }
}

/// Display name for an executable key, special-casing the synthetic rows.
pub fn display_name(exe: &str) -> (name: String)
    ensures
        name@ == shown_as(exe@),
{
    if same_text(exe, UNKNOWN_EXE) {
        "Unknown".to_string()
    } else if same_text(exe, SYSTEM_EXE) {
        "System".to_string()
    } else {
        file_name(exe)
    }
}

/// Extract the filename portion of a Windows or Unix-style path.
pub fn file_name(path: &str) -> (name: String)
    ensures
        name@ == last_component(path@),
{
    let total: usize = path.unicode_len();
    let mut n: usize = 0;
    let mut start: usize = 0;
    assert(path@.take(0).subrange(0, 0) =~= last_component(path@.take(0)));
    for c in it: path.chars()
        invariant
            it.seq() == path@,
            total == path@.len(),
            n == it.index(),
            start <= n <= path@.len(),
            last_component(path@.take(n as int)) == path@.subrange(start as int, n as int),
    {
        n = n + 1;
        proof {
            assert(path@.take(n as int).drop_last() =~= path@.take(n - 1));
            assert(path@.take(n as int).last() == c);
        }
        if c == '\\' || c == '/' {
            start = n;
            assert(path@.subrange(start as int, n as int) =~= Seq::<char>::empty());
        } else {
            assert(path@.subrange(start as int, n as int) =~= path@.subrange(
                start as int,
                n - 1,
            ).push(c));
        }
    }
    assert(path@.take(n as int) =~= path@);
    path.substring_char(start, total).to_string()
}

} // verus!
