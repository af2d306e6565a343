//! What the window shows and what it asks of the backend.
//!
//! Takes in `Snapshot`s from the backend (~1/sec) and decides which `Command`s go
//! back. Drawing and input are left to the front-end, which calls in here for
//! every text it shows and with every choice the user makes.

pub mod format;
pub mod reading;
pub mod sort;
pub mod window;

use crate::backend::rules::with_rule;
use crate::backend::synthetic::{is_shapable, is_system, SYSTEM_EXE, UNKNOWN_EXE};
use crate::gui::format::{
    amount, editable_text, humanize_bytes, humanize_rate, nearest, rate, rule_summary,
    size, summary, trimmed_hundredths, RateUnit,
};
use crate::gui::sort::{ordered, row_stats, sorted_rows, SortColumn};
use crate::table::{to_map, Duplicate};
use crate::text::{
    decimal, decimal_text, lowercase, optional, points_for_commas, same_text, trim, trimmed, with_points,
};
use crate::types::{copy_numbers, Command, Rule, RuleView, Snapshot, StatsView};
use vstd::prelude::*;
use vstd::string::*;

verus! {

broadcast use vstd::string::group_string_axioms;

/// How many total-rate samples we keep for the header graph.
pub const TOTAL_HISTORY_LEN: usize = 120;

pub const COLOR_DOWN: u32 = 0x4c_af_50;
pub const COLOR_UP: u32 = 0x21_96_f3;
pub const COLOR_BLOCK: u32 = 0xe5_39_35;

/// The red of a colour `0xRRGGBB`.
pub open spec fn red(colour: u32) -> u8 {
    (colour / 0x1_0000 % 0x100) as u8
}

/// The green of a colour.
pub open spec fn green(colour: u32) -> u8 {
    (colour / 0x100 % 0x100) as u8
}

/// The blue of a colour.
pub open spec fn blue(colour: u32) -> u8 {
    (colour % 0x100) as u8
}

/// Take a colour's red.
pub fn red_of(colour: u32) -> (channel: u8)
    ensures
        channel == red(colour),
{
    (colour / 0x1_0000 % 0x100) as u8
}

/// Take a colour's green.
pub fn green_of(colour: u32) -> (channel: u8)
    ensures
        channel == green(colour),
{
    (colour / 0x100 % 0x100) as u8
}

/// Take a colour's blue.
pub fn blue_of(colour: u32) -> (channel: u8)
    ensures
        channel == blue(colour),
{
    (colour % 0x100) as u8
}

/// Which of a rule's two limits the dialog is about.
#[derive(Clone, Copy, PartialEq, Eq, Structural, Debug)]
pub enum Direction {
    Down,
    Up,
}

/// State for the small "set limit" modal window.
pub struct LimitModal {
    pub exe_path: String,
    pub name: String,
    pub direction: Direction,
    /// Numeric value as typed (empty = unlimited).
    pub value: String,
    pub unit: RateUnit,
    pub error: Option<String>,
}

/// What a [`LimitModal`] holds.
pub struct ModalView {
    pub exe_path: Seq<char>,
    pub name: Seq<char>,
    pub direction: Direction,
    pub value: Seq<char>,
    pub unit: RateUnit,
    pub error: Option<Seq<char>>,
}

impl View for LimitModal {
    type V = ModalView;

    open spec fn view(&self) -> ModalView {
        ModalView {
            exe_path: self.exe_path@,
            name: self.name@,
            direction: self.direction,
            value: self.value@,
            unit: self.unit,
            error: optional(self.error),
        }
    }
}

/// What is typed, with nothing around it and a point for the decimals.
pub open spec fn entry(value: Seq<char>) -> Seq<char> {
    with_points(trimmed(value))
}

impl LimitModal {
    /// The window's title.
    pub fn title(&self) -> (s: &'static str)
        ensures
            s@ == (match self.direction {
                Direction::Down => "Set download limit"@,
                Direction::Up => "Set upload limit"@,
            }),
    {
        match self.direction {
            Direction::Down => "Set download limit",
            Direction::Up => "Set upload limit",
        }
    }

    /// The number to read, in the notation with a decimal point. Empty if there
    /// is none, which stands for no limit.
    pub fn number(&self) -> (s: String)
        ensures
            s@ == entry(self.value@),
    {
        points_for_commas(trim(self.value.as_str()))
    }
}

/// How the user left the "set limit" window.
pub enum Answer {
    /// Still open, no decision yet.
    Open,
    /// Cancelled, or closed.
    Cancel,
    /// Apply what was typed. It comes to so many bytes per second, if it is a
    /// plain number.
    Apply(Option<u64>),
}

/// What the context menu of a row offers.
#[derive(Clone, Copy, PartialEq, Eq, Structural, Debug)]
pub enum RowMenu {
    /// The row is not a process but the traffic we failed to attribute, so it
    /// gets no rule actions.
    Unattributed,
    /// Rule actions. System is shapable, but covers more than people expect, so
    /// it gets a warning. A blocked process is offered unblocking.
    Actions { system: bool, blocked: bool },
}

/// What the user picked from the context menu of a row.
#[derive(Clone, Copy, PartialEq, Eq, Structural, Debug)]
pub enum Choice {
    SetLimit(Direction),
    SetBlocked(bool),
    RemoveRule,
}

/// The rule for `key`, or a fresh default rule bound to that path.
pub open spec fn rule_for_key(rules: Map<Seq<char>, RuleView>, key: Seq<char>) -> RuleView {
    if rules.contains_key(key) {
        rules[key]
    } else {
        RuleView::unlimited(key)
    }
}

/// That rule with its path set to the key and blocking as given.
pub open spec fn blocking_rule(
    rules: Map<Seq<char>, RuleView>,
    key: Seq<char>,
    blocked: bool,
) -> RuleView {
    RuleView { exe_path: key, blocked, ..rule_for_key(rules, key) }
}

/// That rule with its path set to the key and one limit as given.
pub open spec fn limiting_rule(
    rules: Map<Seq<char>, RuleView>,
    key: Seq<char>,
    direction: Direction,
    limit: Option<u64>,
) -> RuleView {
    let rule = RuleView { exe_path: key, ..rule_for_key(rules, key) };
    match direction {
        Direction::Down => RuleView { down_limit: limit, ..rule },
        Direction::Up => RuleView { up_limit: limit, ..rule },
    }
}

/// A limit in force, if there is one.
pub open spec fn limit_of(
    rules: Map<Seq<char>, RuleView>,
    key: Seq<char>,
    direction: Direction,
) -> Option<u64> {
    match direction {
        Direction::Down => rule_for_key(rules, key).down_limit,
        Direction::Up => rule_for_key(rules, key).up_limit,
    }
}

/// The dialog as it opens: the limit in force in the largest unit that fits, or
/// nothing, in megabytes.
pub open spec fn opened_modal(
    rules: Map<Seq<char>, RuleView>,
    key: Seq<char>,
    name: Seq<char>,
    direction: Direction,
) -> ModalView {
    let (value, unit) = match limit_of(rules, key, direction) {
        Some(bps) => {
            let unit = RateUnit::largest(amount(bps));
            (trimmed_hundredths(nearest(100 * amount(bps), unit.worth() as nat)), unit)
        },
        None => (Seq::empty(), RateUnit::MBps),
    };
    ModalView { exe_path: key, name, direction, value, unit, error: None }
}

/// The newest samples of the header graph.
pub open spec fn newest_totals(history: Seq<u64>) -> Seq<u64> {
    if history.len() > TOTAL_HISTORY_LEN {
        history.subrange(history.len() - TOTAL_HISTORY_LEN, history.len() as int)
    } else {
        history
    }
}

/// Append a sample to the header graph, keeping the newest.
fn push_total(history: &mut Vec<u64>, value: u64)
    ensures
        final(history)@ == newest_totals(old(history)@.push(value)),
{
    history.push(value);
    if history.len() > TOTAL_HISTORY_LEN {
        let excess: usize = history.len() - TOTAL_HISTORY_LEN;
        let tail = history.split_off(excess);
        *history = tail;
    }
}

/// One row of the process table.
pub struct Row {
    /// The lowercase key, used for all rule commands.
    pub key: String,
    pub name: String,
    pub flows: String,
    pub down: String,
    pub up: String,
    pub down_total: String,
    pub up_total: String,
    pub rule: String,
    /// The rule's cell is emphasised.
    pub blocked: bool,
    /// The row is highlighted.
    pub selected: bool,
}

/// What a [`Row`] shows.
pub struct RowView {
    pub key: Seq<char>,
    pub name: Seq<char>,
    pub flows: Seq<char>,
    pub down: Seq<char>,
    pub up: Seq<char>,
    pub down_total: Seq<char>,
    pub up_total: Seq<char>,
    pub rule: Seq<char>,
    pub blocked: bool,
    pub selected: bool,
}

impl View for Row {
    type V = RowView;

    open spec fn view(&self) -> RowView {
        RowView {
            key: self.key@,
            name: self.name@,
            flows: self.flows@,
            down: self.down@,
            up: self.up@,
            down_total: self.down_total@,
            up_total: self.up_total@,
            rule: self.rule@,
            blocked: self.blocked,
            selected: self.selected,
        }
    }
}

/// The rule that a map holds for a key.
pub open spec fn rule_in(rules: Map<Seq<char>, RuleView>, key: Seq<char>) -> Option<RuleView> {
    if rules.contains_key(key) {
        Some(rules[key])
    } else {
        None
    }
}

/// The row of a process.
pub open spec fn row_of(
    key: Seq<char>,
    stats: StatsView,
    rules: Map<Seq<char>, RuleView>,
    selected: Option<Seq<char>>,
) -> RowView {
    RowView {
        key,
        name: stats.name,
        flows: decimal(stats.flow_count),
        down: rate(stats.down_rate),
        up: rate(stats.up_rate),
        down_total: size(stats.down_total),
        up_total: size(stats.up_total),
        rule: summary(rule_in(rules, key)),
        blocked: rules.contains_key(key) && rules[key].blocked,
        selected: selected == Some(key),
    }
}

/// What the side panel tells of the selected process.
pub struct Detail {
    pub name: String,
    pub exe_path: String,
    pub pid: String,
    pub flows: String,
    pub download: String,
    pub upload: String,
    pub total_down: String,
    pub total_up: String,
    pub rule: String,
    /// Rates of the last seconds, for the graph.
    pub down_history: Vec<u64>,
    pub up_history: Vec<u64>,
}

/// What a [`Detail`] shows.
pub struct DetailView {
    pub name: Seq<char>,
    pub exe_path: Seq<char>,
    pub pid: Seq<char>,
    pub flows: Seq<char>,
    pub download: Seq<char>,
    pub upload: Seq<char>,
    pub total_down: Seq<char>,
    pub total_up: Seq<char>,
    pub rule: Seq<char>,
    pub down_history: Seq<u64>,
    pub up_history: Seq<u64>,
}

impl View for Detail {
    type V = DetailView;

    open spec fn view(&self) -> DetailView {
        DetailView {
            name: self.name@,
            exe_path: self.exe_path@,
            pid: self.pid@,
            flows: self.flows@,
            download: self.download@,
            upload: self.upload@,
            total_down: self.total_down@,
            total_up: self.total_up@,
            rule: self.rule@,
            down_history: self.down_history@,
            up_history: self.up_history@,
        }
    }
}

/// The details of a process.
pub open spec fn detail_of(stats: StatsView, rules: Map<Seq<char>, RuleView>) -> DetailView {
    DetailView {
        name: stats.name,
        exe_path: stats.exe_path,
        pid: decimal(stats.pid as nat),
        flows: decimal(stats.flow_count),
        download: rate(stats.down_rate),
        upload: rate(stats.up_rate),
        total_down: size(stats.down_total),
        total_up: size(stats.up_total),
        rule: summary(rule_in(rules, stats.exe_path)),
        down_history: stats.down_history,
        up_history: stats.up_history,
    }
}

/// The state of the window.
pub struct ThrottleApp {
    pub last_snapshot: Snapshot,
    pub total_down_hist: Vec<u64>,
    pub total_up_hist: Vec<u64>,
    pub sort_column: SortColumn,
    pub sort_desc: bool,
    pub selected: Option<String>,
    pub limit_modal: Option<LimitModal>,
    pub about_open: bool,
    pub shutdown_sent: bool,
}

/// What the window holds.
pub struct AppView {
    pub processes: Seq<(Seq<char>, StatsView)>,
    pub total_down_rate: u64,
    pub total_up_rate: u64,
    pub rules: Map<Seq<char>, RuleView>,
    pub total_down_hist: Seq<u64>,
    pub total_up_hist: Seq<u64>,
    pub sort_column: SortColumn,
    pub sort_desc: bool,
    pub selected: Option<Seq<char>>,
    pub limit_modal: Option<ModalView>,
    pub about_open: bool,
    pub shutdown_sent: bool,
}

impl AppView {
    /// The window after a header was clicked: the column is sorted by, the
    /// greatest first; if it was already, the order is turned round.
    pub open spec fn sorted_by(self, column: SortColumn) -> AppView {
        AppView {
            sort_column: column,
            sort_desc: column != self.sort_column || !self.sort_desc,
            ..self
        }
    }
}

/// A dialog that may be absent.
pub open spec fn optional_modal(modal: Option<LimitModal>) -> Option<ModalView> {
    match modal {
        Some(modal) => Some(modal@),
        None => None,
    }
}

impl View for ThrottleApp {
    type V = AppView;

    open spec fn view(&self) -> AppView {
        AppView {
            processes: self.last_snapshot.processes.entries(),
            total_down_rate: self.last_snapshot.total_down_rate,
            total_up_rate: self.last_snapshot.total_up_rate,
            rules: self.last_snapshot.rules@,
            total_down_hist: self.total_down_hist@,
            total_up_hist: self.total_up_hist@,
            sort_column: self.sort_column,
            sort_desc: self.sort_desc,
            selected: optional(self.selected),
            limit_modal: optional_modal(self.limit_modal),
            about_open: self.about_open,
            shutdown_sent: self.shutdown_sent,
        }
    }
}

impl ThrottleApp {
    /// The snapshot's tables are well formed, and the graph is not too long.
    pub open spec fn wf(&self) -> bool {
        &&& self.last_snapshot.wf()
        &&& self.total_down_hist@.len() <= TOTAL_HISTORY_LEN
        &&& self.total_up_hist@.len() <= TOTAL_HISTORY_LEN
    }

    /// The window as it opens: nothing to show yet, the busiest downloader first.
    pub fn new() -> (app: Self)
        ensures
            app.wf(),
            app@ == (AppView {
                processes: Seq::empty(),
                total_down_rate: 0,
                total_up_rate: 0,
                rules: Map::empty(),
                total_down_hist: Seq::empty(),
                total_up_hist: Seq::empty(),
                sort_column: SortColumn::Down,
                sort_desc: true,
                selected: None,
                limit_modal: None,
                about_open: false,
                shutdown_sent: false,
            }),
    {
        ThrottleApp {
            last_snapshot: Snapshot::default(),
            total_down_hist: Vec::new(),
            total_up_hist: Vec::new(),
            sort_column: SortColumn::Down,
            sort_desc: true,
            selected: None,
            limit_modal: None,
            about_open: false,
            shutdown_sent: false,
        }
    }

    /// Take in a snapshot from the backend.
    pub fn take_snapshot(&mut self, snap: Snapshot)
        requires
            old(self).wf(),
            snap.wf(),
        ensures
            final(self).wf(),
            final(self)@ == (AppView {
                processes: snap.processes.entries(),
                total_down_rate: snap.total_down_rate,
                total_up_rate: snap.total_up_rate,
                rules: snap.rules@,
                total_down_hist: newest_totals(
                    old(self)@.total_down_hist.push(snap.total_down_rate),
                ),
                total_up_hist: newest_totals(old(self)@.total_up_hist.push(snap.total_up_rate)),
                ..old(self)@
            }),
    {
        push_total(&mut self.total_down_hist, snap.total_down_rate);
        push_total(&mut self.total_up_hist, snap.total_up_rate);
        self.last_snapshot = snap;
    }

    /// Clear a stale selection so the side panel doesn't linger.
    pub fn drop_stale_selection(&mut self)
        requires
            old(self).wf(),
        ensures
            final(self).wf(),
            final(self)@ == (AppView {
                selected: match old(self)@.selected {
                    Some(key) if to_map(old(self)@.processes).contains_key(key) => Some(key),
                    _ => None,
                },
                ..old(self)@
            }),
    {
        let stale = match &self.selected {
            Some(key) => !self.last_snapshot.processes.contains_key(key.as_str()),
            None => false,
        };
        if stale {
            self.selected = None;
        }
    }

    /// Select a row that was clicked.
    pub fn select(&mut self, key: &str)
        ensures
            final(self).last_snapshot == old(self).last_snapshot,
            final(self)@ == (AppView { selected: Some(key@), ..old(self)@ }),
    {
        self.selected = Some(key.to_string());
    }

    /// Tell the backend to shut down, once.
    pub fn send_shutdown(&mut self) -> (command: Option<Command>)
        ensures
            final(self).last_snapshot == old(self).last_snapshot,
            final(self)@ == (AppView { shutdown_sent: true, ..old(self)@ }),
            command == (if old(self)@.shutdown_sent {
                None
            } else {
                Some(Command::Shutdown)
            }),
    {
        if self.shutdown_sent {
            None
        } else {
            self.shutdown_sent = true;
            Some(Command::Shutdown)
        }
    }

    /// The current rule for `key`, or a fresh default rule bound to that path.
    pub fn base_rule(&self, key: &str) -> (rule: Rule)
        requires
            self.wf(),
        ensures
            rule@ == rule_for_key(self@.rules, key@),
    {
        match self.last_snapshot.rules.get(key) {
            Some(rule) => rule.duplicate(),
            None => {
                let mut rule = Rule::default();
                rule.exe_path = key.to_string();
                rule
            },
        }
    }

    /// Block or unblock a process; its limits stay as they are.
    pub fn set_blocked(&self, key: &str, blocked: bool) -> (command: Command)
        requires
            self.wf(),
        ensures
            command matches Command::SetRule(rule) && rule@ == blocking_rule(
                self@.rules,
                key@,
                blocked,
            ),
    {
        let mut rule = self.base_rule(key);
        rule.exe_path = key.to_string();
        rule.blocked = blocked;
        Command::SetRule(rule)
    }

    /// Open the dialog for a limit, with the one in force filled in.
    pub fn open_limit_modal(&mut self, key: &str, name: &str, direction: Direction)
        requires
            old(self).wf(),
        ensures
            final(self).wf(),
            final(self)@ == (AppView {
                limit_modal: Some(opened_modal(old(self)@.rules, key@, name@, direction)),
                ..old(self)@
            }),
    {
        let current: Option<u64> = match self.last_snapshot.rules.get(key) {
            Some(rule) => match direction {
                Direction::Down => rule.down_limit,
                Direction::Up => rule.up_limit,
            },
            None => None,
        };
        let (value, unit) = match current {
            Some(bps) => {
                let (hundredths, unit) = RateUnit::decompose(bps);
                (editable_text(hundredths), unit)
            },
            None => (String::new(), RateUnit::MBps),
        };
        self.limit_modal =
        Some(
            LimitModal {
                exe_path: key.to_string(),
                name: name.to_string(),
                direction,
                value,
                unit,
                error: None,
            },
        );
    }

    /// What becomes of the "set limit" window `modal`, which the front-end took
    /// out of `limit_modal` to draw it.
    pub fn settle_limit(&mut self, modal: LimitModal, answer: Answer) -> (command: Option<Command>)
        requires
            old(self).wf(),
        ensures
            final(self).wf(),
            match answer {
                Answer::Open => {
                    &&& command is None
                    &&& final(self)@ == (AppView { limit_modal: Some(modal@), ..old(self)@ })
                },
                Answer::Cancel => {
                    &&& command is None
                    &&& final(self)@ == (AppView { limit_modal: None, ..old(self)@ })
                },
                Answer::Apply(bps) => if entry(modal@.value).len() == 0 || bps is Some {
                    &&& command matches Some(Command::SetRule(rule)) && rule@ == limiting_rule(
                        old(self)@.rules,
                        modal@.exe_path,
                        modal@.direction,
                        if entry(modal@.value).len() == 0 {
                            None
                        } else {
                            bps
                        },
                    )
                    &&& final(self)@ == (AppView { limit_modal: None, ..old(self)@ })
                } else {
                    &&& command is None
                    &&& final(self)@ == (AppView {
                        limit_modal: Some(
                            (ModalView {
                                error: Some("Enter a plain number, e.g. 2 or 0.5"@),
                                ..modal@
                            }),
                        ),
                        ..old(self)@
                    })
                },
            },
    {
        let mut modal = modal;
        let bps = match answer {
            Answer::Open => {
                self.limit_modal = Some(modal);
                return None;
            },
            Answer::Cancel => {
                self.limit_modal = None;
                return None;
            },
            Answer::Apply(bps) => bps,
        };
        let number = modal.number();
        let limit: Option<u64> = if number.as_str().unicode_len() == 0 {
            None
        } else if bps.is_some() {
            bps
        } else {
            modal.error = Some("Enter a plain number, e.g. 2 or 0.5".to_string());
            self.limit_modal = Some(modal);
            return None;
        };
        self.limit_modal = None;
        let mut rule = self.base_rule(modal.exe_path.as_str());
        rule.exe_path = modal.exe_path;
        match modal.direction {
            Direction::Down => {
                rule.down_limit = limit;
            },
            Direction::Up => {
                rule.up_limit = limit;
            },
        }
        Some(Command::SetRule(rule))
    }

    /// What the context menu of a row offers.
    pub fn row_menu(&self, key: &str) -> (menu: RowMenu)
        requires
            self.wf(),
        ensures
            menu == (if key@ == UNKNOWN_EXE@ {
                RowMenu::Unattributed
            } else {
                RowMenu::Actions {
                    system: key@ == SYSTEM_EXE@,
                    blocked: self@.rules.contains_key(key@) && self@.rules[key@].blocked,
                }
            }),
    {
        if !is_shapable(key) {
            return RowMenu::Unattributed;
        }
        let blocked = match self.last_snapshot.rules.get(key) {
            Some(rule) => rule.blocked,
            None => false,
        };
        RowMenu::Actions { system: is_system(key), blocked }
    }

    /// Do what was picked from the context menu of a row.
    pub fn choose_action(&mut self, key: &str, name: &str, choice: Choice) -> (command: Option<
        Command,
    >)
        requires
            old(self).wf(),
        ensures
            final(self).wf(),
            match choice {
                Choice::SetLimit(direction) => {
                    &&& command is None
                    &&& final(self)@ == (AppView {
                        limit_modal: Some(opened_modal(old(self)@.rules, key@, name@, direction)),
                        ..old(self)@
                    })
                },
                Choice::SetBlocked(blocked) => {
                    &&& command matches Some(Command::SetRule(rule)) && rule@ == blocking_rule(
                        old(self)@.rules,
                        key@,
                        blocked,
                    )
                    &&& final(self)@ == old(self)@
                },
                Choice::RemoveRule => {
                    &&& command matches Some(Command::RemoveRule(path)) && path@ == key@
                    &&& final(self)@ == old(self)@
                },
            },
    {
        match choice {
            Choice::SetLimit(direction) => {
                self.open_limit_modal(key, name, direction);
                None
            },
            Choice::SetBlocked(blocked) => Some(self.set_blocked(key, blocked)),
            Choice::RemoveRule => Some(Command::RemoveRule(key.to_string())),
        }
    }

    /// Adjust the sort state when a header is clicked.
    pub fn sort_header(&mut self, column: SortColumn)
        ensures
            final(self).last_snapshot == old(self).last_snapshot,
            final(self)@ == old(self)@.sorted_by(column),
    {
        if self.sort_column == column {
            self.sort_desc = !self.sort_desc;
        } else {
            self.sort_column = column;
            self.sort_desc = true;
        }
    }

    /// The arrow that a header shows.
    pub fn sort_arrow(&self, column: SortColumn) -> (arrow: &'static str)
        ensures
            arrow@ == (if self@.sort_column != column {
                ""@
            } else if self@.sort_desc {
                "▼"@
            } else {
                "▲"@
            }),
    {
        if self.sort_column != column {
            ""
        } else if self.sort_desc {
            "▼"
        } else {
            "▲"
        }
    }

    /// The rows of the table in the order in which they are shown, as places in
    /// the snapshot.
    pub fn row_order(&self) -> (order: Vec<usize>)
        ensures
            order.len() == self@.processes.len(),
            order@.no_duplicates(),
            forall|i: usize| i < order.len() ==> order@.contains(i),
            forall|p: int| 0 <= p < order.len() ==> (#[trigger] order@[p]) < order.len(),
            ordered(row_stats(self@.processes), self@.sort_column, self@.sort_desc, order@),
    {
        sorted_rows(&self.last_snapshot.processes, self.sort_column, self.sort_desc)
    }

    /// The row of the process at place `i` of the snapshot.
    pub fn row(&self, i: usize) -> (row: Row)
        requires
            self.wf(),
            i < self@.processes.len(),
        ensures
            row@ == row_of(
                self@.processes[i as int].0,
                self@.processes[i as int].1,
                self@.rules,
                self@.selected,
            ),
    {
        let key = self.last_snapshot.processes.key(i);
        let stats = self.last_snapshot.processes.value(i);
        let rule = self.last_snapshot.rules.get(key.as_str());
        let blocked = match rule {
            Some(rule) => rule.blocked,
            None => false,
        };
        let selected = match &self.selected {
            Some(selected) => same_text(selected.as_str(), key.as_str()),
            None => false,
        };
        Row {
            key: key.clone(),
            name: stats.name.clone(),
            flows: decimal_text(stats.flow_count as u64),
            down: humanize_rate(stats.down_rate),
            up: humanize_rate(stats.up_rate),
            down_total: humanize_bytes(stats.down_total),
            up_total: humanize_bytes(stats.up_total),
            rule: rule_summary(rule),
            blocked,
            selected,
        }
    }

    /// The details of the selected process, if one is selected and still there.
    pub fn detail(&self) -> (detail: Option<Detail>)
        requires
            self.wf(),
        ensures
            match self@.selected {
                Some(key) if to_map(self@.processes).contains_key(key) => detail matches Some(
                    detail,
                ) && detail@ == detail_of(to_map(self@.processes)[key], self@.rules),
                _ => detail is None,
            },
    {
        let key = match &self.selected {
            Some(key) => key,
            None => return None,
        };
        match self.last_snapshot.processes.get(key.as_str()) {
            Some(stats) => Some(
                Detail {
                    name: stats.name.clone(),
                    exe_path: stats.exe_path.clone(),
                    pid: decimal_text(stats.pid as u64),
                    flows: decimal_text(stats.flow_count as u64),
                    download: humanize_rate(stats.down_rate),
                    upload: humanize_rate(stats.up_rate),
                    total_down: humanize_bytes(stats.down_total),
                    total_up: humanize_bytes(stats.up_total),
                    rule: rule_summary(self.last_snapshot.rules.get(stats.exe_path.as_str())),
                    down_history: copy_numbers(&stats.down_history),
                    up_history: copy_numbers(&stats.up_history),
                },
            ),
            None => None,
        }
    }

    /// The header's texts: the total rates and the number of processes.
    pub fn headline(&self) -> (texts: (String, String, String))
        ensures
            texts.0@ == "Down "@ + rate(self@.total_down_rate),
            texts.1@ == "Up "@ + rate(self@.total_up_rate),
            texts.2@ == decimal(self@.processes.len()) + " processes"@,
    {
        let mut down = "Down ".to_string();
        down.append(humanize_rate(self.last_snapshot.total_down_rate).as_str());
        let mut up = "Up ".to_string();
        up.append(humanize_rate(self.last_snapshot.total_up_rate).as_str());
        let mut processes = decimal_text(self.last_snapshot.processes.len() as u64);
        processes.append(" processes");
        (down, up, processes)
    }
}

/// Two clicks on the header that is sorted by change nothing.
pub proof fn law_two_clicks_restore_the_order(app: AppView, column: SortColumn)
    requires
        app.sort_column == column,
    ensures
        app.sorted_by(column).sorted_by(column) == app,
{
}

/// The header graph holds the newest samples, at most as many as it may, the
/// last one at its end.
pub proof fn law_graph_is_capped(history: Seq<u64>, value: u64)
    ensures
        newest_totals(history.push(value)).len() <= TOTAL_HISTORY_LEN,
        newest_totals(history.push(value)).last() == value,
        newest_totals(history.push(value)).is_suffix_of(history.push(value)),
{
    let all = history.push(value);
    if all.len() > TOTAL_HISTORY_LEN {
        assert(newest_totals(all) =~= all.subrange(
            all.len() - newest_totals(all).len(),
            all.len() as int,
        ));
    } else {
        assert(all.subrange(0, all.len() as int) =~= all);
    }
}

/// Blocking leaves the limits alone, and unblocking brings back what was.
pub proof fn law_blocking_keeps_limits(rules: Map<Seq<char>, RuleView>, key: Seq<char>)
    requires
        lowercase(key) == key,
    ensures
        ({
            let blocked = with_rule(rules, blocking_rule(rules, key, true));
            let freed = with_rule(blocked, blocking_rule(blocked, key, false));
            &&& forall|d: Direction| limit_of(blocked, key, d) == limit_of(rules, key, d)
            &&& rule_for_key(freed, key) == RuleView {
                exe_path: key,
                blocked: false,
                ..rule_for_key(rules, key)
            }
        }),
{
}

/// Setting one limit leaves the other one and blocking alone, and the dialog
/// finds the limit again once the rule is in force.
pub proof fn law_limits_are_set_one_by_one(
    rules: Map<Seq<char>, RuleView>,
    key: Seq<char>,
    direction: Direction,
    limit: Option<u64>,
)
    requires
        lowercase(key) == key,
    ensures
        ({
            let limited = with_rule(rules, limiting_rule(rules, key, direction, limit));
            &&& limit_of(limited, key, direction) == limit
            &&& forall|d: Direction|
                d != direction ==> limit_of(limited, key, d) == limit_of(rules, key, d)
            &&& rule_for_key(limited, key).blocked == rule_for_key(rules, key).blocked
        }),
{
}

/// Fallback error window (shown when the backend can't start, e.g. not elevated
/// or WinDivert is missing).
pub struct ErrorApp {
    pub message: String,
}

impl ErrorApp {
    /// The window for this message.
    pub fn new(message: String) -> (app: Self)
        ensures
            app.message == message,
    {
        ErrorApp { message }
    }
}

} // verus!
