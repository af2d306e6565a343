//! Backend: per-process attribution, shaping, and the once-a-second snapshot
//! feed to the window.
//!
//! [`State`] is what all of it shares. Capturing hands packets to
//! [`engine::handle_packet`], a drainer calls [`engine::drain`], flow events go
//! to [`State::on_flow_event`], and the aggregator, which alone persists rules
//! and feeds the window, does what [`State::aggregate`] tells it to.

pub mod engine;
pub mod flows;
pub mod metering;
pub mod reports;
pub mod rules;
pub mod shaping;
pub mod sockets;
pub mod synthetic;

use crate::addr::SocketAddr;
use crate::backend::engine::{buckets_wf, BucketKey, BucketMap, Dir, ShapedBucket};
use crate::backend::flows::{down_sum, saturated, up_sum, FlowKey, FlowTable, FlowsView};
use crate::backend::rules::{remove_rule, set_rule, with_rule};
use crate::backend::sockets::{has_image, SocketSnapshot};
use crate::table::{Duplicate, Table};
use crate::text::{lowercase, optional};
use crate::types::{Command, Rule, RuleView, Snapshot};
use std::collections::HashMap;
use vstd::prelude::*;

verus! {

broadcast use vstd::std_specs::hash::group_hash_axioms;

/// How many flow events to log per protocol at startup (diagnostics).
pub const FLOW_EVENT_LOG_LIMIT: u32 = 10;

/// What happened to a flow.
#[derive(Clone, Copy, PartialEq, Eq, Structural, Debug)]
pub enum FlowChange {
    Established,
    Deleted,
    Other,
}

/// State shared across all backend threads.
pub struct State<A> {
    pub flows: FlowTable,
    pub rules: Table<String, Rule>,
    pub buckets: Table<BucketKey, ShapedBucket<A>>,
}

/// What the backend knows.
pub struct StateView<A> {
    pub flows: FlowsView,
    pub rules: Map<Seq<char>, RuleView>,
    pub buckets: BucketMap<A>,
}

impl<A> View for State<A> {
    type V = StateView<A>;

    open spec fn view(&self) -> StateView<A> {
        StateView { flows: self.flows@, rules: self.rules@, buckets: self.buckets@ }
    }
}

/// What wakes the aggregator.
pub enum Event {
    /// The window sent a command.
    Command(Command),
    /// The window dropped its end of the command channel.
    Disconnected,
    /// It was time to read the socket tables again, and this is what they hold,
    /// with the image paths of PIDs that were missing.
    Refresh { snap: SocketSnapshot, images: Vec<(u32, Option<String>)> },
    /// A second has passed.
    Tick,
    /// Nobody is left to take snapshots.
    Refused,
}

/// What the aggregator does next.
pub enum Action {
    /// Wait for the next event.
    Wait,
    /// Save the rules.
    Persist,
    /// Save the rules and stop everything.
    PersistAndStop,
    /// Hand this snapshot to the window.
    Publish(Snapshot),
    /// Stop everything.
    Stop,
}

/// The buckets without those of an executable.
pub open spec fn without_exe<A>(buckets: BucketMap<A>, exe: Seq<char>) -> BucketMap<A> {
    buckets.remove((exe, Dir::Down)).remove((exe, Dir::Up))
}

impl<A> StateView<A> {
    /// The state after the aggregator took in an event. A removed rule takes its
    /// shaping buckets along, so that no stale limit lingers.
    pub open spec fn heard(self, event: Event) -> StateView<A> {
        match event {
            Event::Command(Command::SetRule(rule)) => {
                StateView { rules: with_rule(self.rules, rule@), ..self }
            },
            Event::Command(Command::RemoveRule(path)) => StateView {
                rules: self.rules.remove(lowercase(path@)),
                buckets: without_exe(self.buckets, lowercase(path@)),
                ..self
            },
            Event::Refresh { snap, images } => {
                StateView { flows: self.flows.refreshed(snap, images@), ..self }
            },
            Event::Tick => StateView { flows: self.flows.ticked(), ..self },
            _ => self,
        }
    }
}

impl<A> State<A> {
    /// The state is well formed.
    pub open spec fn wf(&self) -> bool {
        &&& self.flows.wf()
        &&& self.rules.wf()
        &&& self.buckets.wf()
        &&& buckets_wf(self.buckets@)
    }

    /// The state at startup, with the persisted rules.
    pub fn new(rules: Table<String, Rule>) -> (state: Self)
        requires
            rules.wf(),
        ensures
            state.wf(),
            state@ == (StateView::<A> {
                flows: FlowsView::empty(),
                rules: rules@,
                buckets: Map::empty(),
            }),
    {
        State { flows: FlowTable::new(), rules, buckets: Table::new() }
    }

    /// Whether an event needs its PID's image path: one that establishes a flow
    /// of a process not known yet.
    pub fn wants_image(&self, change: FlowChange, pid: u32) -> (wants: bool)
        requires
            self.wf(),
        ensures
            wants == (change is Established && !self@.flows.pid_cache.contains_key(pid) && pid != 0
                && pid != 4),
    {
        change == FlowChange::Established && !self.flows.is_known(pid) && has_image(pid)
    }

    /// Keep the flow table current: a flow was established or torn down.
    /// `image` is the image path found for a PID that is not known yet.
    pub fn on_flow_event(
        &mut self,
        change: FlowChange,
        protocol: u8,
        local: SocketAddr,
        remote: SocketAddr,
        pid: u32,
        image: Option<String>,
    )
        requires
            old(self).wf(),
        ensures
            final(self).wf(),
            final(self)@ == (StateView {
                flows: match change {
                    FlowChange::Established => old(self)@.flows.with_flow(
                        protocol,
                        local,
                        remote,
                        pid,
                        optional(image),
                        true,
                    ),
                    FlowChange::Deleted => FlowsView {
                        flows: old(self)@.flows.flows.remove(FlowKey { protocol, local, remote }),
                        ..old(self)@.flows
                    },
                    FlowChange::Other => old(self)@.flows,
                },
                ..old(self)@
            }),
    {
        match change {
            FlowChange::Established => {
                self.flows.insert_flow(protocol, local, remote, pid, image);
            },
            FlowChange::Deleted => {
                self.flows.remove_flow(protocol, local, remote);
            },
            FlowChange::Other => {},
        }
    }

    /// Take in an event and decide what the aggregator does next.
    pub fn aggregate(&mut self, event: Event) -> (action: Action)
        requires
            old(self).wf(),
        ensures
            final(self).wf(),
            final(self)@ == old(self)@.heard(event),
            match event {
                Event::Command(Command::SetRule(_)) | Event::Command(Command::RemoveRule(_)) => {
                    action is Persist
                },
                Event::Command(Command::Shutdown) | Event::Disconnected => action is PersistAndStop,
                Event::Refresh { .. } => action is Wait,
                Event::Tick => action matches Action::Publish(snapshot) && {
                    &&& snapshot.wf()
                    &&& snapshot.processes@ == old(self)@.flows.report()
                    &&& snapshot.total_down_rate == saturated(
                        down_sum(snapshot.processes.entries()) as int,
                    )
                    &&& snapshot.total_up_rate == saturated(
                        up_sum(snapshot.processes.entries()) as int,
                    )
                    &&& snapshot.rules@ == old(self)@.rules
                },
                Event::Refused => action is Stop,
            },
    {
        match event {
            Event::Command(Command::SetRule(rule)) => {
                set_rule(&mut self.rules, rule);
                Action::Persist
            },
            Event::Command(Command::RemoveRule(path)) => {
                let key = remove_rule(&mut self.rules, path.as_str());
                // A removed rule may have left shaping buckets behind; drop them
                // so that no stale limit lingers.
                self.buckets.remove(&(key.clone(), Dir::Down));
                self.buckets.remove(&(key, Dir::Up));
                Action::Persist
            },
            Event::Command(Command::Shutdown) => Action::PersistAndStop,
            Event::Disconnected => Action::PersistAndStop,
            Event::Refresh { snap, images } => {
                let _ = self.flows.apply_socket_snapshot(snap, &images);
                Action::Wait
            },
            Event::Tick => {
                let (processes, total_down_rate, total_up_rate) = self.flows.snapshot();
                let rules = self.rules.duplicate();
                Action::Publish(Snapshot { processes, total_down_rate, total_up_rate, rules })
            },
            Event::Refused => Action::Stop,
        }
    }
}

/// After a rule was removed nothing of its executable is held or limited any
/// more, and every other bucket stays as it was.
pub proof fn law_removed_rule_leaves_no_bucket<A>(
    buckets: BucketMap<A>,
    exe: Seq<char>,
    key: (Seq<char>, Dir),
)
    ensures
        without_exe(buckets, exe).contains_key(key) <==> buckets.contains_key(key) && key.0 != exe,
        key.0 != exe ==> without_exe(buckets, exe)[key] == buckets[key],
{
    if key.0 == exe {
        match key.1 {
            Dir::Down => assert(key == (exe, Dir::Down)),
            Dir::Up => assert(key == (exe, Dir::Up)),
        }
    }
}

/// Whether an event sets or removes the rule for a path.
pub open spec fn concerns(event: Event, path: Seq<char>) -> bool {
    match event {
        Event::Command(Command::SetRule(rule)) => lowercase(rule@.exe_path) == path,
        Event::Command(Command::RemoveRule(removed)) => lowercase(removed@) == path,
        _ => false,
    }
}

/// A rule stays as it is, and so do the buckets of its executable, until a
/// command sets or removes the rule for its path.
pub proof fn law_rules_change_by_command_only<A>(
    state: StateView<A>,
    event: Event,
    path: Seq<char>,
    dir: Dir,
)
    requires
        !concerns(event, path),
    ensures
        state.heard(event).rules.contains_key(path) == state.rules.contains_key(path),
        state.heard(event).rules[path] == state.rules[path],
        state.heard(event).buckets.contains_key((path, dir)) == state.buckets.contains_key(
            (path, dir),
        ),
        state.heard(event).buckets[(path, dir)] == state.buckets[(path, dir)],
{
}

/// No command touches what is known of flows and bytes.
pub proof fn law_commands_leave_flows_alone<A>(state: StateView<A>, command: Command)
    ensures
        state.heard(Event::Command(command)).flows == state.flows,
{
}

/// A command to set a rule puts it, limit for limit, under its path in lowercase
/// and touches nothing else; one to remove a rule takes it away with both of its
/// buckets; nothing else that is heard changes rules or buckets.
pub proof fn law_commands_are_obeyed<A>(state: StateView<A>, event: Event)
    ensures
        match event {
            Event::Command(Command::SetRule(rule)) => {
                let after = state.heard(event);
                let found = after.rules[lowercase(rule.exe_path@)];
                &&& after.rules.contains_key(lowercase(rule.exe_path@))
                &&& found.exe_path == lowercase(rule.exe_path@)
                &&& found.down_limit == rule.down_limit
                &&& found.up_limit == rule.up_limit
                &&& found.blocked == rule.blocked
                &&& after.buckets == state.buckets
            },
            Event::Command(Command::RemoveRule(path)) => {
                let after = state.heard(event);
                &&& !after.rules.contains_key(lowercase(path@))
                &&& !after.buckets.contains_key((lowercase(path@), Dir::Down))
                &&& !after.buckets.contains_key((lowercase(path@), Dir::Up))
            },
            _ => state.heard(event).rules == state.rules && state.heard(event).buckets
                == state.buckets,
        },
{
}

/// A second that passes ticks the counters, a sweep refreshes the table, and no
/// other event touches it.
pub proof fn law_events_reach_the_flows<A>(state: StateView<A>, event: Event)
    ensures
        match event {
            Event::Tick => state.heard(event).flows == state.flows.ticked(),
            Event::Refresh { snap, images } => state.heard(event).flows == state.flows.refreshed(
                snap,
                images@,
            ),
            _ => state.heard(event).flows == state.flows,
        },
{
}

/// How many flow events of each protocol were logged.
pub struct FlowLog {
    seen: HashMap<u8, u32>,
}

impl View for FlowLog {
    type V = Map<u8, u32>;

    closed spec fn view(&self) -> Map<u8, u32> {
        self.seen@
    }
}

/// How many events of a protocol were logged.
pub open spec fn times_logged(log: Map<u8, u32>, protocol: u8) -> u32 {
    if log.contains_key(protocol) {
        log[protocol]
    } else {
        0
    }
}

/// The log after an event of a protocol.
pub open spec fn noted(log: Map<u8, u32>, protocol: u8) -> Map<u8, u32> {
    if times_logged(log, protocol) < FLOW_EVENT_LOG_LIMIT {
        log.insert(protocol, (times_logged(log, protocol) + 1) as u32)
    } else {
        log
    }
}

/// The log after events of these protocols, from an empty one on.
pub open spec fn noted_all(protocols: Seq<u8>) -> Map<u8, u32>
    decreases protocols.len(),
{
    if protocols.len() == 0 {
        Map::empty()
    } else {
        noted(noted_all(protocols.drop_last()), protocols.last())
    }
}

/// How many of the events are of a protocol.
pub open spec fn events_of(protocols: Seq<u8>, protocol: u8) -> nat
    decreases protocols.len(),
{
    if protocols.len() == 0 {
        0
    } else {
        events_of(protocols.drop_last(), protocol) + if protocols.last() == protocol {
            1nat
        } else {
            0nat
        }
    }
}

/// Of each protocol the first ten events are logged, whatever else comes between
/// them, and no more.
pub proof fn law_first_ten_events_are_logged(protocols: Seq<u8>, protocol: u8)
    ensures
        ({
            let n = events_of(protocols, protocol);
            times_logged(noted_all(protocols), protocol) == if n < 10 {
                n
            } else {
                10
            }
        }),
    decreases protocols.len(),
{
    if protocols.len() > 0 {
        law_first_ten_events_are_logged(protocols.drop_last(), protocol);
    }
}

impl FlowLog {
    /// Nothing was logged yet.
    pub fn new() -> (log: FlowLog)
        ensures
            log@ == Map::<u8, u32>::empty(),
    {
        FlowLog { seen: HashMap::new() }
    }

    /// Note an event of this protocol, and say whether to log it. The first few
    /// of each are, so a protocol whose 5-tuples never match captured packets is visible.
    pub fn note(&mut self, protocol: u8) -> (logged: bool)
        ensures
            logged == (times_logged(old(self)@, protocol) < FLOW_EVENT_LOG_LIMIT),
            final(self)@ == (if logged {
                old(self)@.insert(protocol, (times_logged(old(self)@, protocol) + 1) as u32)
            } else {
                old(self)@
            }),
            final(self)@ == noted(old(self)@, protocol),
    {
        let seen: u32 = match self.seen.get(&protocol) {
            Some(seen) => *seen,
            None => 0,
        };
        if seen < FLOW_EVENT_LOG_LIMIT {
            self.seen.insert(protocol, seen + 1);
            true
        } else {
            false
        }
    }
}

} // verus!
