//! Shared types between the capture/limiter backend and the window.

use crate::table::{Duplicate, Table};
use vstd::prelude::*;

verus! {

/// Seconds of rate history kept per process for sparklines.
pub const HISTORY_LEN: usize = 60;

/// A per-process traffic rule, matched by lowercase executable path.
#[derive(Debug, Clone, PartialEq)]
pub struct Rule {
    /// Full lowercase path of the executable this rule applies to.
    pub exe_path: String,
    /// Download limit in bytes/sec. `None` = unlimited.
    pub down_limit: Option<u64>,
    /// Upload limit in bytes/sec. `None` = unlimited.
    pub up_limit: Option<u64>,
    /// If true, all traffic for this process is dropped.
    pub blocked: bool,
}

/// What a [`Rule`] says.
pub struct RuleView {
    pub exe_path: Seq<char>,
    pub down_limit: Option<u64>,
    pub up_limit: Option<u64>,
    pub blocked: bool,
}

impl View for Rule {
    type V = RuleView;

    open spec fn view(&self) -> RuleView {
        RuleView {
            exe_path: self.exe_path@,
            down_limit: self.down_limit,
            up_limit: self.up_limit,
            blocked: self.blocked,
        }
    }
}

impl RuleView {
    /// The rule that limits and blocks nothing.
    pub open spec fn unlimited(exe_path: Seq<char>) -> RuleView {
        RuleView { exe_path, down_limit: None, up_limit: None, blocked: false }
    }
}

impl Default for Rule {
    fn default() -> (rule: Rule)
        ensures
            rule@ == RuleView::unlimited(Seq::empty()),
    {
        Rule { exe_path: String::new(), down_limit: None, up_limit: None, blocked: false }
    }
}

impl Duplicate for Rule {
    fn duplicate(&self) -> (copy: Rule) {
        Rule {
            exe_path: self.exe_path.clone(),
            down_limit: self.down_limit,
            up_limit: self.up_limit,
            blocked: self.blocked,
        }
    }
}

/// Live stats for one process, sent to the window once per second.
#[derive(Debug, Clone, PartialEq)]
pub struct ProcessStats {
    pub pid: u32,
    /// Full executable path.
    pub exe_path: String,
    /// File name portion, for display.
    pub name: String,
    /// Current download rate, bytes/sec.
    pub down_rate: u64,
    /// Current upload rate, bytes/sec.
    pub up_rate: u64,
    /// Total bytes since start.
    pub down_total: u64,
    pub up_total: u64,
    /// Rolling per-second download rates, newest last, up to HISTORY_LEN.
    pub down_history: Vec<u64>,
    /// Rolling per-second upload rates, newest last, up to HISTORY_LEN.
    pub up_history: Vec<u64>,
    /// Number of active flows attributed to this process.
    pub flow_count: usize,
}

/// What a [`ProcessStats`] reports.
pub struct StatsView {
    pub pid: u32,
    pub exe_path: Seq<char>,
    pub name: Seq<char>,
    pub down_rate: u64,
    pub up_rate: u64,
    pub down_total: u64,
    pub up_total: u64,
    pub down_history: Seq<u64>,
    pub up_history: Seq<u64>,
    pub flow_count: nat,
}

impl View for ProcessStats {
    type V = StatsView;

    open spec fn view(&self) -> StatsView {
        StatsView {
            pid: self.pid,
            exe_path: self.exe_path@,
            name: self.name@,
            down_rate: self.down_rate,
            up_rate: self.up_rate,
            down_total: self.down_total,
            up_total: self.up_total,
            down_history: self.down_history@,
            up_history: self.up_history@,
            flow_count: self.flow_count as nat,
        }
    }
}

impl Default for ProcessStats {
    fn default() -> (stats: ProcessStats)
        ensures
            stats@ == (StatsView {
                pid: 0,
                exe_path: Seq::empty(),
                name: Seq::empty(),
                down_rate: 0,
                up_rate: 0,
                down_total: 0,
                up_total: 0,
                down_history: Seq::empty(),
                up_history: Seq::empty(),
                flow_count: 0,
            }),
    {
        ProcessStats {
            pid: 0,
            exe_path: String::new(),
            name: String::new(),
            down_rate: 0,
            up_rate: 0,
            down_total: 0,
            up_total: 0,
            down_history: Vec::new(),
            up_history: Vec::new(),
            flow_count: 0,
        }
    }
}

/// Copy a list of numbers.
pub fn copy_numbers(numbers: &Vec<u64>) -> (copy: Vec<u64>)
    ensures
        copy@ == numbers@,
{
    let mut copy: Vec<u64> = Vec::new();
    let mut i: usize = 0;
    while i < numbers.len()
        invariant
            i <= numbers.len(),
            copy@ == numbers@.take(i as int),
        decreases numbers.len() - i,
    {
        copy.push(numbers[i]);
        assert(copy@ =~= numbers@.take(i + 1));
        i = i + 1;
    }
    assert(copy@ =~= numbers@);
    copy
}

impl Duplicate for ProcessStats {
    fn duplicate(&self) -> (copy: ProcessStats) {
        ProcessStats {
            pid: self.pid,
            exe_path: self.exe_path.clone(),
            name: self.name.clone(),
            down_rate: self.down_rate,
            up_rate: self.up_rate,
            down_total: self.down_total,
            up_total: self.up_total,
            down_history: copy_numbers(&self.down_history),
            up_history: copy_numbers(&self.up_history),
            flow_count: self.flow_count,
        }
    }
}

/// Snapshot of everything the window needs, produced about once a second.
pub struct Snapshot {
    /// Keyed by lowercase exe_path (processes aggregated across PIDs share a key).
    pub processes: Table<String, ProcessStats>,
    /// Total current rates across all processes, bytes/sec.
    pub total_down_rate: u64,
    pub total_up_rate: u64,
    /// Currently active rules, keyed by lowercase exe_path.
    pub rules: Table<String, Rule>,
}

impl Snapshot {
    /// Both tables are well formed.
    pub open spec fn wf(&self) -> bool {
        self.processes.wf() && self.rules.wf()
    }
}

impl Default for Snapshot {
    fn default() -> (snapshot: Snapshot)
        ensures
            snapshot.wf(),
            snapshot.processes.entries() == Seq::<(Seq<char>, StatsView)>::empty(),
            snapshot.processes@ == Map::<Seq<char>, StatsView>::empty(),
            snapshot.total_down_rate == 0,
            snapshot.total_up_rate == 0,
            snapshot.rules@ == Map::<Seq<char>, RuleView>::empty(),
    {
        Snapshot {
            processes: Table::new(),
            total_down_rate: 0,
            total_up_rate: 0,
            rules: Table::new(),
        }
    }
}

/// Commands sent from the window to the backend.
#[derive(Debug, Clone, PartialEq)]
pub enum Command {
    /// Insert or replace the rule for `rule.exe_path`.
    SetRule(Rule),
    /// Remove any rule for this lowercase exe path.
    RemoveRule(String),
    /// Stop the engine threads and flush state (app exit).
    Shutdown,
}

} // verus!
