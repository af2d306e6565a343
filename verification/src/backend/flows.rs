//! Flow table and per-executable byte counters.
//!
//! Socket tables and PID resolution live in [`super::sockets`]; the synthetic
//! "Unknown"/"System" row policy lives in [`super::synthetic`].
//!
//! The flow table maps a network 5-tuple `(protocol, local, remote)` to the
//! owning process (`pid`, lowercase `exe_path`). It is populated from two
//! sources: flow events (which carry the PID directly), and a bootstrap (and
//! periodic refresh) of the kernel socket tables.
//!
//! Because a UDP socket is often bound to `0.0.0.0` and talks to many remotes,
//! an exact 5-tuple lookup misses most QUIC/UDP traffic. A secondary
//! `(protocol, family, local port)` map is therefore maintained alongside the
//! flow map and used as a fallback ([`FlowTable::exe_for`]). That map is
//! rebuilt from scratch on every successful table refresh so ports belonging
//! to closed sockets cannot misattribute a later socket that reuses them.
//!
//! Byte counters are kept per lowercase `exe_path`. [`FlowTable::add_bytes`]
//! counts traffic that actually passes; traffic that cannot be attributed at
//! all is counted under [`UNKNOWN_EXE`] via [`FlowTable::add_unattributed`] so
//! totals still reflect real link usage. Once per second
//! [`FlowTable::snapshot`] converts the accumulated bytes into a per-second
//! rate, folds them into totals and rolling history, and produces the
//! `ProcessStats` that the window shows.

use crate::addr::{IpAddr, SocketAddr};
use crate::backend::sockets::{
    law_sweep_resolves_each_new_pid_once, new_pids, path_for_pid, resolve_pid_path, unknown_pids,
    SocketSnapshot, SocketTableRow,
};
use crate::backend::synthetic::{display_name, shown_as, UNKNOWN_EXE};
use crate::table::{
    count_entries, has_key, key_at, keys_where, lemma_aligned, lemma_all_counted, lemma_count,
    lemma_no_entries, lemma_position, lemma_take, position, to_map,
};
use crate::table::{Key, Table};
use crate::text::optional;
use crate::types::{copy_numbers, ProcessStats, StatsView, HISTORY_LEN};
use std::collections::HashSet;
use vstd::prelude::*;
use vstd::string::*;

verus! {

broadcast use {vstd::string::group_string_axioms, vstd::std_specs::hash::group_hash_axioms};

/// Key of the port-owner fallback map. The address family is part of the key
/// because a v4 and a v6 socket may bind the same port in different processes
/// (mDNS, SSDP, dev servers).
#[derive(Clone, Copy, PartialEq, Eq, Structural, Hash, Debug)]
pub struct PortKey {
    pub protocol: u8,
    pub v6: bool,
    pub port: u16,
}

/// The fallback-map key for a local endpoint.
pub open spec fn port_key_of(protocol: u8, local: SocketAddr) -> PortKey {
    PortKey { protocol, v6: local.ip is V6, port: local.port }
}

/// Build the fallback-map key for a local endpoint.
fn port_key(protocol: u8, local: SocketAddr) -> (key: PortKey)
    ensures
        key == port_key_of(protocol, local),
{
    PortKey { protocol, v6: local.is_ipv6(), port: local.port() }
}

/// Key identifying a single network flow.
#[derive(Clone, Copy, PartialEq, Eq, Structural, Hash, Debug)]
pub struct FlowKey {
    pub protocol: u8,
    pub local: SocketAddr,
    pub remote: SocketAddr,
}

impl FlowKey {
    /// The key of the flow between `local` and `remote`.
    pub fn new(protocol: u8, local: SocketAddr, remote: SocketAddr) -> (key: FlowKey)
        ensures
            key == (FlowKey { protocol, local, remote }),
    {
        FlowKey { protocol, local, remote }
    }
}

impl View for PortKey {
    type V = PortKey;

    open spec fn view(&self) -> PortKey {
        *self
    }
}

impl Key for PortKey {
    type Probe = PortKey;

    open spec fn digest_of(key: PortKey) -> u64 {
        (key.protocol * 0x2_0000 + (if key.v6 {
            0x1_0000int
        } else {
            0int
        }) + key.port) as u64
    }

    fn digest(probe: &PortKey) -> (d: u64) {
        probe.protocol as u64 * 0x2_0000u64 + (if probe.v6 {
            0x1_0000u64
        } else {
            0u64
        }) + probe.port as u64
    }

    fn matches(&self, probe: &PortKey) -> (same: bool) {
        *self == *probe
    }

    fn probe(&self) -> (probe: &PortKey) {
        self
    }

    fn copy(&self) -> (key: PortKey) {
        *self
    }
}

/// An endpoint's contribution to a flow's digest.
pub open spec fn endpoint_digest(addr: SocketAddr) -> u64 {
    let ip: u64 = match addr.ip {
        IpAddr::V4(ip) => ip as u64,
        IpAddr::V6(ip) => (ip % 0xffff_ffff_ffff_ffc5u128) as u64,
    };
    (ip ^ ((addr.port as u64) << 32u64)).wrapping_mul(0x9e37_79b9_7f4a_7c15)
}

fn digest_endpoint(addr: SocketAddr) -> (d: u64)
    ensures
        d == endpoint_digest(addr),
{
    let ip: u64 = match addr.ip {
        IpAddr::V4(ip) => ip as u64,
        IpAddr::V6(ip) => (ip % 0xffff_ffff_ffff_ffc5u128) as u64,
    };
    (ip ^ ((addr.port as u64) << 32u64)).wrapping_mul(0x9e37_79b9_7f4a_7c15)
}

impl View for FlowKey {
    type V = FlowKey;

    open spec fn view(&self) -> FlowKey {
        *self
    }
}

impl Key for FlowKey {
    type Probe = FlowKey;

    open spec fn digest_of(key: FlowKey) -> u64 {
        endpoint_digest(key.local).wrapping_mul(31).wrapping_add(
            endpoint_digest(key.remote),
        ).wrapping_add(key.protocol as u64)
    }

    fn digest(probe: &FlowKey) -> (d: u64) {
        digest_endpoint(probe.local).wrapping_mul(31).wrapping_add(
            digest_endpoint(probe.remote),
        ).wrapping_add(probe.protocol as u64)
    }

    fn matches(&self, probe: &FlowKey) -> (same: bool) {
        *self == *probe
    }

    fn probe(&self) -> (probe: &FlowKey) {
        self
    }

    fn copy(&self) -> (key: FlowKey) {
        *self
    }
}

/// The process that owns a flow.
struct FlowEntry {
    pid: u32,
    /// Lowercase full executable path, or empty if resolution failed.
    exe_path: String,
}

/// What a flow entry records.
pub struct Owner {
    pub pid: u32,
    pub exe_path: Seq<char>,
}

impl View for FlowEntry {
    type V = Owner;

    closed spec fn view(&self) -> Owner {
        Owner { pid: self.pid, exe_path: self.exe_path@ }
    }
}

/// A PID's resolved lowercase path. `None` means the PID is deliberately
/// ignored (PID 0, the idle process).
struct CachedPath {
    path: Option<String>,
}

impl View for CachedPath {
    type V = Option<Seq<char>>;

    closed spec fn view(&self) -> Option<Seq<char>> {
        optional(self.path)
    }
}

/// Rolling byte counters for one executable path.
struct ExeCounter {
    /// Representative PID (most recently seen) for display.
    pid: u32,
    down_total: u64,
    up_total: u64,
    /// Bytes accumulated since the last snapshot tick (this becomes the rate).
    down_accum: u64,
    up_accum: u64,
    down_history: Vec<u64>,
    up_history: Vec<u64>,
}

/// What a counter has counted.
pub struct Counter {
    pub pid: u32,
    pub down_total: u64,
    pub up_total: u64,
    pub down_accum: u64,
    pub up_accum: u64,
    pub down_history: Seq<u64>,
    pub up_history: Seq<u64>,
}

impl View for ExeCounter {
    type V = Counter;

    closed spec fn view(&self) -> Counter {
        Counter {
            pid: self.pid,
            down_total: self.down_total,
            up_total: self.up_total,
            down_accum: self.down_accum,
            up_accum: self.up_accum,
            down_history: self.down_history@,
            up_history: self.up_history@,
        }
    }
}

/// The sum of two counts, or the largest count if it does not fit.
pub open spec fn saturated(sum: int) -> u64 {
    if sum > u64::MAX {
        u64::MAX
    } else {
        sum as u64
    }
}

/// The newest `HISTORY_LEN` samples.
pub open spec fn newest(history: Seq<u64>) -> Seq<u64> {
    if history.len() > HISTORY_LEN {
        history.subrange(history.len() - HISTORY_LEN, history.len() as int)
    } else {
        history
    }
}

impl Counter {
    /// A counter that has counted nothing.
    pub open spec fn zero() -> Counter {
        Counter {
            pid: 0,
            down_total: 0,
            up_total: 0,
            down_accum: 0,
            up_accum: 0,
            down_history: Seq::empty(),
            up_history: Seq::empty(),
        }
    }

    /// The counter after these bytes passed.
    pub open spec fn plus(self, down: u64, up: u64) -> Counter {
        Counter {
            down_accum: saturated(self.down_accum + down),
            up_accum: saturated(self.up_accum + up),
            ..self
        }
    }

    /// The counter after a tick: what has accumulated goes into the totals and
    /// the history.
    pub open spec fn ticked(self) -> Counter {
        Counter {
            pid: self.pid,
            down_total: saturated(self.down_total + self.down_accum),
            up_total: saturated(self.up_total + self.up_accum),
            down_accum: 0,
            up_accum: 0,
            down_history: newest(self.down_history.push(self.down_accum)),
            up_history: newest(self.up_history.push(self.up_accum)),
        }
    }

    /// The histories hold as many samples, at most `HISTORY_LEN`.
    pub open spec fn wf(self) -> bool {
        self.down_history.len() == self.up_history.len() && self.up_history.len() <= HISTORY_LEN
    }
}

impl ExeCounter {
    fn zero() -> (counter: ExeCounter)
        ensures
            counter@ == Counter::zero(),
    {
        ExeCounter {
            pid: 0,
            down_total: 0,
            up_total: 0,
            down_accum: 0,
            up_accum: 0,
            down_history: Vec::new(),
            up_history: Vec::new(),
        }
    }
}

/// Append `value`, keeping at most `HISTORY_LEN` samples (newest last).
pub fn push_history(history: &mut Vec<u64>, value: u64)
    ensures
        final(history)@ == newest(old(history)@.push(value)),
{
    history.push(value);
    if history.len() > HISTORY_LEN {
        let overflow: usize = history.len() - HISTORY_LEN;
        let tail = history.split_off(overflow);
        *history = tail;
    }
}

/// The sum of the reported download rates.
pub open spec fn down_sum(report: Seq<(Seq<char>, StatsView)>) -> nat
    decreases report.len(),
{
    if report.len() == 0 {
        0
    } else {
        down_sum(report.drop_last()) + report.last().1.down_rate as nat
    }
}

/// The sum of the reported upload rates.
pub open spec fn up_sum(report: Seq<(Seq<char>, StatsView)>) -> nat
    decreases report.len(),
{
    if report.len() == 0 {
        0
    } else {
        up_sum(report.drop_last()) + report.last().1.up_rate as nat
    }
}

/// The image path that the system gave for a PID; none if it was not found or
/// not asked for. Of two answers the later counts.
pub open spec fn image_in(images: Seq<(u32, Option<String>)>, pid: u32) -> Option<Seq<char>>
    decreases images.len(),
{
    if images.len() == 0 {
        None
    } else if images.last().0 == pid {
        optional(images.last().1)
    } else {
        image_in(images.drop_last(), pid)
    }
}

/// Find the image path that the system gave for a PID.
fn image_for(images: &Vec<(u32, Option<String>)>, pid: u32) -> (image: Option<String>)
    ensures
        optional(image) == image_in(images@, pid),
{
    let mut n: usize = images.len();
    assert(images@.take(n as int) =~= images@);
    while n > 0
        invariant
            n <= images.len(),
            image_in(images@, pid) == image_in(images@.take(n as int), pid),
        decreases n,
    {
        proof {
            assert(images@.take(n as int).last() == images@[n - 1]);
            assert(images@.take(n as int).drop_last() =~= images@.take(n - 1));
        }
        if images[n - 1].0 == pid {
            return match &images[n - 1].1 {
                Some(image) => Some(image.clone()),
                None => None,
            };
        }
        n = n - 1;
    }
    None
}

/// What is counted for an executable, nothing if it is not listed.
spec fn count_in(counts: Map<Seq<char>, usize>, exe: Seq<char>) -> nat {
    if counts.contains_key(exe) {
        counts[exe] as nat
    } else {
        0
    }
}

/// The state of a flow table.
pub struct FlowsView {
    pub flows: Map<FlowKey, Owner>,
    /// Fallback owners: `(protocol, family, local port)` to executable path.
    pub port_owners: Map<PortKey, Seq<char>>,
    /// The fallback owners learned from events since the last table refresh.
    pub recent: Map<PortKey, Seq<char>>,
    pub counters: Map<Seq<char>, Counter>,
    pub pid_cache: Map<u32, Option<Seq<char>>>,
}

impl FlowsView {
    /// The table that knows nothing.
    pub open spec fn empty() -> FlowsView {
        FlowsView {
            flows: Map::empty(),
            port_owners: Map::empty(),
            recent: Map::empty(),
            counters: Map::empty(),
            pid_cache: Map::empty(),
        }
    }

    /// The path of a PID: the cached one, or else what the image path that was
    /// found makes of it.
    pub open spec fn path_of(self, pid: u32, image: Option<Seq<char>>) -> Option<Seq<char>> {
        if self.pid_cache.contains_key(pid) {
            self.pid_cache[pid]
        } else {
            path_for_pid(pid, image)
        }
    }

    /// The executable a PID's traffic is kept under, empty if it is ignored.
    pub open spec fn exe_of(self, pid: u32, image: Option<Seq<char>>) -> Seq<char> {
        match self.path_of(pid, image) {
            Some(path) => path,
            None => Seq::empty(),
        }
    }

    /// The table after a PID was resolved.
    pub open spec fn learned(self, pid: u32, image: Option<Seq<char>>) -> FlowsView {
        FlowsView { pid_cache: self.pid_cache.insert(pid, self.path_of(pid, image)), ..self }
    }

    /// The counter of an executable.
    pub open spec fn counter(self, exe: Seq<char>) -> Counter {
        if self.counters.contains_key(exe) {
            self.counters[exe]
        } else {
            Counter::zero()
        }
    }

    /// The table after `exe` was seen to own a local endpoint through `pid`.
    /// An endpoint without a port is not recorded; `recent` marks what was
    /// learned from a live event.
    pub open spec fn owned(
        self,
        protocol: u8,
        local: SocketAddr,
        exe: Seq<char>,
        pid: u32,
        recent: bool,
    ) -> FlowsView {
        let key = port_key_of(protocol, local);
        if exe.len() == 0 {
            self
        } else {
            FlowsView {
                counters: self.counters.insert(exe, Counter { pid, ..self.counter(exe) }),
                port_owners: if local.port == 0 {
                    self.port_owners
                } else {
                    self.port_owners.insert(key, exe)
                },
                recent: if local.port == 0 || !recent {
                    self.recent
                } else {
                    self.recent.insert(key, exe)
                },
                ..self
            }
        }
    }

    /// The table after a flow of `pid` was seen.
    pub open spec fn with_flow(
        self,
        protocol: u8,
        local: SocketAddr,
        remote: SocketAddr,
        pid: u32,
        image: Option<Seq<char>>,
        recent: bool,
    ) -> FlowsView {
        let exe = self.exe_of(pid, image);
        let after = self.learned(pid, image).owned(protocol, local, exe, pid, recent);
        FlowsView {
            flows: after.flows.insert(
                FlowKey { protocol, local, remote },
                Owner { pid, exe_path: exe },
            ),
            ..after
        }
    }

    /// The table after a socket of `pid` without a peer was seen.
    pub open spec fn with_port_owner(
        self,
        protocol: u8,
        local: SocketAddr,
        pid: u32,
        image: Option<Seq<char>>,
        recent: bool,
    ) -> FlowsView {
        self.learned(pid, image).owned(
            protocol,
            local,
            self.exe_of(pid, image),
            pid,
            recent,
        )
    }

    /// The entry of a flow, in either orientation.
    pub open spec fn flow_owner(
        self,
        protocol: u8,
        local: SocketAddr,
        remote: SocketAddr,
    ) -> Option<Owner> {
        let direct = FlowKey { protocol, local, remote };
        let swapped = FlowKey { protocol, local: remote, remote: local };
        if self.flows.contains_key(direct) {
            Some(self.flows[direct])
        } else if self.flows.contains_key(swapped) {
            Some(self.flows[swapped])
        } else {
            None
        }
    }

    /// The executable that a packet between `local` and `remote` belongs to.
    pub open spec fn exe_for(
        self,
        protocol: u8,
        local: SocketAddr,
        remote: SocketAddr,
    ) -> Option<Seq<char>> {
        let key = port_key_of(protocol, local);
        match self.flow_owner(protocol, local, remote) {
            Some(owner) if owner.exe_path.len() > 0 => Some(owner.exe_path),
            _ => if self.port_owners.contains_key(key) {
                Some(self.port_owners[key])
            } else {
                None
            },
        }
    }

    /// The table after these bytes passed for an executable.
    pub open spec fn with_bytes(self, exe: Seq<char>, down: u64, up: u64) -> FlowsView {
        if exe.len() == 0 {
            self
        } else {
            FlowsView {
                counters: self.counters.insert(exe, self.counter(exe).plus(down, up)),
                ..self
            }
        }
    }

    /// The table after PIDs were resolved elsewhere. What is cached stays.
    pub open spec fn with_resolved(self, resolved: Seq<(u32, Option<String>)>) -> FlowsView
        decreases resolved.len(),
    {
        if resolved.len() == 0 {
            self
        } else {
            let before = self.with_resolved(resolved.drop_last());
            let (pid, path) = resolved.last();
            if before.pid_cache.contains_key(pid) {
                before
            } else {
                FlowsView { pid_cache: before.pid_cache.insert(pid, optional(path)), ..before }
            }
        }
    }

    /// The port owners that the rows of a table amount to. The last row with a
    /// path that is not empty wins; an empty path only fills a port that has no
    /// owner yet. Rows without a port or of an ignored PID own none.
    pub open spec fn port_owners_in(self, rows: Seq<SocketTableRow>) -> Map<PortKey, Seq<char>>
        decreases rows.len(),
    {
        if rows.len() == 0 {
            Map::empty()
        } else {
            let before = self.port_owners_in(rows.drop_last());
            let row = rows.last();
            let key = port_key_of(row.protocol, row.local);
            match self.path_of(row.pid, None) {
                Some(exe) if row.local.port != 0 && (exe.len() > 0 || !before.contains_key(key))
                    => before.insert(key, exe),
                _ => before,
            }
        }
    }

    /// The table after its port owners were rebuilt from the rows, with those
    /// learned from events on top.
    pub open spec fn rebuilt(self, rows: Seq<SocketTableRow>) -> FlowsView {
        FlowsView {
            port_owners: self.port_owners_in(rows).union_prefer_right(self.recent),
            recent: Map::empty(),
            ..self
        }
    }

    /// The table after a row was applied. `image` is the image path that the
    /// system gives for the row's PID; it counts if the PID is not cached yet.
    pub open spec fn with_row(self, row: SocketTableRow, image: Option<Seq<char>>) -> FlowsView {
        match row.remote {
            Some(remote) => self.with_flow(
                row.protocol,
                row.local,
                remote,
                row.pid,
                image,
                false,
            ),
            None => self.with_port_owner(row.protocol, row.local, row.pid, image, false),
        }
    }

    /// The table after the rows were applied one after the other.
    pub open spec fn with_rows(
        self,
        rows: Seq<SocketTableRow>,
        images: Seq<(u32, Option<String>)>,
    ) -> FlowsView
        decreases rows.len(),
    {
        if rows.len() == 0 {
            self
        } else {
            self.with_rows(rows.drop_last(), images).with_row(
                rows.last(),
                image_in(images, rows.last().pid),
            )
        }
    }

    /// The table after a sweep was applied.
    pub open spec fn refreshed(
        self,
        snap: SocketSnapshot,
        images: Seq<(u32, Option<String>)>,
    ) -> FlowsView {
        let applied = self.with_resolved(snap.resolved@).with_rows(snap.rows@, images);
        if snap.complete {
            applied.rebuilt(snap.rows@)
        } else {
            applied
        }
    }

    /// The PIDs that are cached once a sweep's own were taken over.
    pub open spec fn known_with(self, snap: SocketSnapshot) -> Set<u32> {
        self.with_resolved(snap.resolved@).pid_cache.dom()
    }

    /// How many flows are attributed to an executable.
    pub open spec fn flows_of(self, exe: Seq<char>) -> nat {
        keys_where(self.flows, |owner: Owner| owner.exe_path == exe).len()
    }

    /// What a tick reports for an executable.
    pub open spec fn stats_of(self, exe: Seq<char>) -> StatsView {
        let counter = self.counters[exe];
        StatsView {
            pid: counter.pid,
            exe_path: exe,
            name: shown_as(exe),
            down_rate: counter.down_accum,
            up_rate: counter.up_accum,
            down_total: counter.ticked().down_total,
            up_total: counter.ticked().up_total,
            down_history: counter.ticked().down_history,
            up_history: counter.ticked().up_history,
            flow_count: self.flows_of(exe),
        }
    }

    /// What a tick reports.
    pub open spec fn report(self) -> Map<Seq<char>, StatsView> {
        Map::new(|exe: Seq<char>| self.counters.contains_key(exe), |exe: Seq<char>| self.stats_of(exe))
    }

    /// The table after a tick.
    pub open spec fn ticked(self) -> FlowsView {
        FlowsView { counters: self.counters.map_values(|c: Counter| c.ticked()), ..self }
    }

    /// Every counter is well formed, and no counter is kept under an empty
    /// path.
    pub open spec fn wf(self) -> bool {
        &&& forall|exe: Seq<char>| #[trigger]
            self.counters.contains_key(exe) ==> self.counters[exe].wf()
        &&& !self.counters.contains_key(Seq::empty())
    }
}

/// The flow table. It is locked on the packet path, so its operations are
/// short.
pub struct FlowTable {
    flows: Table<FlowKey, FlowEntry>,
    port_owners: Table<PortKey, String>,
    recent_port_owners: Table<PortKey, String>,
    counters: Table<String, ExeCounter>,
    pid_cache: Table<u32, CachedPath>,
}

impl View for FlowTable {
    type V = FlowsView;

    closed spec fn view(&self) -> FlowsView {
        FlowsView {
            flows: self.flows@,
            port_owners: self.port_owners@,
            recent: self.recent_port_owners@,
            counters: self.counters@,
            pid_cache: self.pid_cache@,
        }
    }
}

impl Default for FlowTable {
    fn default() -> (table: FlowTable)
        ensures
            table.wf(),
            table@ == FlowsView::empty(),
    {
        FlowTable::new()
    }
}

impl FlowTable {
    /// The parts are well formed.
    pub closed spec fn parts_wf(&self) -> bool {
        &&& self.flows.wf()
        &&& self.port_owners.wf()
        &&& self.recent_port_owners.wf()
        &&& self.counters.wf()
        &&& self.pid_cache.wf()
    }

    /// The table is well formed.
    pub open spec fn wf(&self) -> bool {
        self.parts_wf() && self@.wf()
    }

    /// A table that knows nothing.
    pub fn new() -> (table: Self)
        ensures
            table.wf(),
            table@ == FlowsView::empty(),
    {
        FlowTable {
            flows: Table::new(),
            port_owners: Table::new(),
            recent_port_owners: Table::new(),
            counters: Table::new(),
            pid_cache: Table::new(),
        }
    }

    /// Whether a PID's path is already cached.
    pub fn is_known(&self, pid: u32) -> (known: bool)
        requires
            self.wf(),
        ensures
            known == self@.pid_cache.contains_key(pid),
    {
        self.pid_cache.contains_key(&pid)
    }

    /// Look up a PID's path without caching it.
    fn path_of(&self, pid: u32, image: Option<String>) -> (path: Option<String>)
        requires
            self.wf(),
        ensures
            optional(path) == self@.path_of(pid, optional(image)),
    {
        match self.pid_cache.get(&pid) {
            Some(cached) => match &cached.path {
                Some(path) => Some(path.clone()),
                None => None,
            },
            None => resolve_pid_path(pid, image),
        }
    }

    /// Resolve a PID to a lowercase executable path, caching the result.
    ///
    /// `image` is the image path that was found for the PID; it is only used if
    /// the PID is not cached yet. This never gives up: PID 4 becomes `system`
    /// and any PID without an image path becomes `pid:<n>`, so its traffic is
    /// still attributed to a stable row instead of being discarded. PID 0 (the
    /// idle process) is the one exception and yields `None`.
    fn resolve_path(&mut self, pid: u32, image: Option<String>) -> (path: Option<String>)
        requires
            old(self).wf(),
        ensures
            final(self).wf(),
            final(self)@ == old(self)@.learned(pid, optional(image)),
            optional(path) == old(self)@.path_of(pid, optional(image)),
    {
        let path = self.path_of(pid, image);
        let copy = match &path {
            Some(path) => Some(path.clone()),
            None => None,
        };
        self.pid_cache.insert(pid, CachedPath { path: copy });
        path
    }

    /// Borrow an executable's counter out of the table; the caller puts it back.
    fn take_counter(&mut self, exe: &str) -> (counter: ExeCounter)
        requires
            old(self).parts_wf(),
        ensures
            final(self).parts_wf(),
            counter@ == old(self)@.counter(exe@),
            final(self)@.flows == old(self)@.flows,
            final(self)@.port_owners == old(self)@.port_owners,
            final(self)@.recent == old(self)@.recent,
            final(self)@.pid_cache == old(self)@.pid_cache,
            forall|c: Counter| #[trigger]
                final(self)@.counters.insert(exe@, c) == old(self)@.counters.insert(exe@, c),
    {
        match self.counters.find(exe) {
            Some(i) => {
                proof {
                    lemma_position(self.counters.entries(), exe@, i as int);
                }
                let counter = self.counters.replace(i, ExeCounter::zero());
                assert forall|c: Counter| #[trigger]
                    self@.counters.insert(exe@, c) == old(self)@.counters.insert(exe@, c) by {
                    assert(self@.counters.insert(exe@, c) =~= old(self)@.counters.insert(exe@, c));
                }
                counter
            },
            None => ExeCounter::zero(),
        }
    }

    /// Write one fallback entry and make sure the executable has a counter,
    /// mirroring the entry into the "learned since the last refresh" overlay
    /// when it came from a live event.
    fn note_owner(
        &mut self,
        protocol: u8,
        local: SocketAddr,
        exe: &String,
        pid: u32,
        recent: bool,
    )
        requires
            old(self).wf(),
        ensures
            final(self).wf(),
            final(self)@ == old(self)@.owned(protocol, local, exe@, pid, recent),
    {
        if exe.as_str().is_empty() {
            return;
        }
        let mut counter = self.take_counter(exe.as_str());
        counter.pid = pid;
        assert(self@.counters.insert(exe@, counter@) == old(self)@.counters.insert(
            exe@,
            counter@,
        ));
        self.counters.insert(exe.clone(), counter);
        if local.port() == 0 {
            return;
        }
        let key = port_key(protocol, local);
        if recent {
            self.recent_port_owners.insert(key, exe.clone());
        }
        self.port_owners.insert(key, exe.clone());
    }

    /// Insert (or refresh) a flow discovered via a flow event. Also records the
    /// `(protocol, family, local port)` fallback mapping, marked as learned
    /// from a live event so that it survives the next authoritative rebuild of
    /// the port map. `image` is the image path found for a PID that is not
    /// known yet.
    pub fn insert_flow(
        &mut self,
        protocol: u8,
        local: SocketAddr,
        remote: SocketAddr,
        pid: u32,
        image: Option<String>,
    )
        requires
            old(self).wf(),
        ensures
            final(self).wf(),
            final(self)@ == old(self)@.with_flow(
                protocol,
                local,
                remote,
                pid,
                optional(image),
                true,
            ),
    {
        self.insert_flow_inner(protocol, local, remote, pid, image, true);
    }

    fn insert_flow_inner(
        &mut self,
        protocol: u8,
        local: SocketAddr,
        remote: SocketAddr,
        pid: u32,
        image: Option<String>,
        recent: bool,
    )
        requires
            old(self).wf(),
        ensures
            final(self).wf(),
            final(self)@ == old(self)@.with_flow(
                protocol,
                local,
                remote,
                pid,
                optional(image),
                recent,
            ),
    {
        let exe_path = match self.resolve_path(pid, image) {
            Some(path) => path,
            None => String::new(),
        };
        self.note_owner(protocol, local, &exe_path, pid, recent);
        self.flows.insert(FlowKey::new(protocol, local, remote), FlowEntry { pid, exe_path });
    }

    /// Record only the port ownership, without a 5-tuple. Used for listening /
    /// unconnected sockets from the UDP table.
    fn insert_port_owner_inner(
        &mut self,
        protocol: u8,
        local: SocketAddr,
        pid: u32,
        image: Option<String>,
        recent: bool,
    )
        requires
            old(self).wf(),
        ensures
            final(self).wf(),
            final(self)@ == old(self)@.with_port_owner(
                protocol,
                local,
                pid,
                optional(image),
                recent,
            ),
    {
        let exe_path = match self.resolve_path(pid, image) {
            Some(path) => path,
            None => String::new(),
        };
        self.note_owner(protocol, local, &exe_path, pid, recent);
    }

    /// Remove a flow that has been torn down. The port-owner fallback entry is
    /// intentionally kept here: a wildcard UDP socket outlives individual
    /// flows. Entries for sockets that are really gone are dropped by the next
    /// authoritative table refresh, which rebuilds the map.
    pub fn remove_flow(&mut self, protocol: u8, local: SocketAddr, remote: SocketAddr)
        requires
            old(self).wf(),
        ensures
            final(self).wf(),
            final(self)@ == (FlowsView {
                flows: old(self)@.flows.remove(FlowKey { protocol, local, remote }),
                ..old(self)@
            }),
    {
        self.flows.remove(&FlowKey::new(protocol, local, remote));
    }

    /// Look up the owning executable path for a packet's `(protocol, local,
    /// remote)`.
    ///
    /// Three attempts, in order of decreasing precision:
    ///   1. the exact 5-tuple,
    ///   2. the swapped orientation (so a caller that guessed direction wrong
    ///      still resolves),
    ///   3. the `(protocol, family, local port)` fallback, which catches
    ///      wildcard-bound UDP sockets (QUIC) and any flow whose event we never
    ///      saw. The *remote* port is deliberately never used: it would hand
    ///      every DNS or HTTPS packet to whichever process happens to own the
    ///      matching local port.
    pub fn exe_for(&self, protocol: u8, local: SocketAddr, remote: SocketAddr) -> (exe: Option<
        String,
    >)
        requires
            self.wf(),
        ensures
            optional(exe) == self@.exe_for(protocol, local, remote),
    {
        let direct = match self.flows.get(&FlowKey::new(protocol, local, remote)) {
            Some(entry) => Some(entry),
            None => self.flows.get(&FlowKey::new(protocol, remote, local)),
        };
        if let Some(entry) = direct {
            if !entry.exe_path.as_str().is_empty() {
                return Some(entry.exe_path.clone());
            }
        }
        match self.port_owners.get(&port_key(protocol, local)) {
            Some(exe) => Some(exe.clone()),
            None => None,
        }
    }

    /// Add passed-through bytes for an executable (traffic that was actually
    /// injected, i.e. real shaped throughput).
    pub fn add_bytes(&mut self, exe_path: &str, down: u64, up: u64)
        requires
            old(self).wf(),
        ensures
            final(self).wf(),
            final(self)@ == old(self)@.with_bytes(exe_path@, down, up),
    {
        if exe_path.is_empty() {
            return;
        }
        let mut counter = self.take_counter(exe_path);
        counter.down_accum = counter.down_accum.saturating_add(down);
        counter.up_accum = counter.up_accum.saturating_add(up);
        assert(self@.counters.insert(exe_path@, counter@) == old(self)@.counters.insert(
            exe_path@,
            counter@,
        ));
        self.counters.insert(exe_path.to_string(), counter);
    }

    /// Count bytes that passed but could not be attributed to any process, so
    /// they still appear in the totals and in the "Unknown" row.
    pub fn add_unattributed(&mut self, down: u64, up: u64)
        requires
            old(self).wf(),
        ensures
            final(self).wf(),
            final(self)@ == old(self)@.with_bytes(UNKNOWN_EXE@, down, up),
    {
        self.add_bytes(UNKNOWN_EXE, down, up);
    }

    /// PIDs already resolved in the cache. A sweep only looks up genuinely new
    /// PIDs - and does that work without holding this table's lock.
    pub fn known_pids(&self) -> (pids: HashSet<u32>)
        requires
            self.wf(),
        ensures
            pids@ == self@.pid_cache.dom(),
    {
        let mut pids: HashSet<u32> = HashSet::new();
        let ghost entries = self.pid_cache.entries();
        let mut i: usize = 0;
        proof {
            lemma_no_entries(entries.take(0));
        }
        while i < self.pid_cache.len()
            invariant
                self.wf(),
                entries == self.pid_cache.entries(),
                i <= entries.len(),
                pids@ == to_map(entries.take(i as int)).dom(),
            decreases entries.len() - i,
        {
            proof {
                lemma_take(entries, i as int);
            }
            pids.insert(*self.pid_cache.key(i));
            i = i + 1;
        }
        assert(entries.take(i as int) =~= entries);
        pids
    }

    /// Keep what a sweep resolved, unless the PID is already cached.
    fn keep_resolved(&mut self, resolved: &Vec<(u32, Option<String>)>)
        requires
            old(self).wf(),
        ensures
            final(self).wf(),
            final(self)@ == old(self)@.with_resolved(resolved@),
    {
        let mut i: usize = 0;
        assert(resolved@.take(0) =~= Seq::<(u32, Option<String>)>::empty());
        while i < resolved.len()
            invariant
                i <= resolved.len(),
                self.wf(),
                self@ == old(self)@.with_resolved(resolved@.take(i as int)),
            decreases resolved.len() - i,
        {
            proof {
                assert(resolved@.take(i + 1).drop_last() =~= resolved@.take(i as int));
                assert(resolved@.take(i + 1).last() == resolved@[i as int]);
            }
            let pid: u32 = resolved[i].0;
            if !self.pid_cache.contains_key(&pid) {
                let path = match &resolved[i].1 {
                    Some(path) => Some(path.clone()),
                    None => None,
                };
                self.pid_cache.insert(pid, CachedPath { path });
            }
            i = i + 1;
        }
        assert(resolved@.take(i as int) =~= resolved@);
    }

    /// Rebuild the port owners from the rows of a complete sweep, so that ports
    /// belonging to sockets that have since closed disappear. Entries learned
    /// from flow events are newer than the table read; they stay.
    fn rebuild_ports(&mut self, rows: &Vec<SocketTableRow>)
        requires
            old(self).wf(),
        ensures
            final(self).wf(),
            final(self)@ == old(self)@.rebuilt(rows@),
    {
        let mut fresh: Table<PortKey, String> = Table::new();
        let mut i: usize = 0;
        assert(rows@.take(0) =~= Seq::<SocketTableRow>::empty());
        while i < rows.len()
            invariant
                i <= rows.len(),
                self.wf(),
                *self == *old(self),
                fresh.wf(),
                fresh@ == self@.port_owners_in(rows@.take(i as int)),
            decreases rows.len() - i,
        {
            proof {
                assert(rows@.take(i + 1).drop_last() =~= rows@.take(i as int));
                assert(rows@.take(i + 1).last() == rows@[i as int]);
            }
            let row = &rows[i];
            if row.local.port() != 0 {
                if let Some(exe) = self.path_of(row.pid, None) {
                    let key = port_key(row.protocol, row.local);
                    if !exe.as_str().is_empty() || !fresh.contains_key(&key) {
                        fresh.insert(key, exe);
                    }
                }
            }
            i = i + 1;
        }
        assert(rows@.take(i as int) =~= rows@);
        let ghost base = fresh@;
        let ghost entries = self.recent_port_owners.entries();
        let mut j: usize = 0;
        proof {
            lemma_no_entries(entries.take(0));
            assert(base.union_prefer_right(to_map(entries.take(0))) =~= base);
        }
        while j < self.recent_port_owners.len()
            invariant
                self.wf(),
                *self == *old(self),
                entries == self.recent_port_owners.entries(),
                j <= entries.len(),
                fresh.wf(),
                fresh@ == base.union_prefer_right(to_map(entries.take(j as int))),
            decreases entries.len() - j,
        {
            let key = *self.recent_port_owners.key(j);
            let exe = self.recent_port_owners.value(j).clone();
            proof {
                lemma_take(entries, j as int);
                let before = to_map(entries.take(j as int));
                assert(base.union_prefer_right(before).insert(key, exe@)
                    =~= base.union_prefer_right(before.insert(key, exe@)));
            }
            fresh.insert(key, exe);
            j = j + 1;
        }
        assert(entries.take(j as int) =~= entries);
        self.port_owners = fresh;
        self.recent_port_owners = Table::new();
    }

    /// The PIDs of a sweep's rows that are neither cached nor resolved by it, each
    /// once. A sweep that knew what is cached leaves none.
    pub fn missing_pids(&self, snap: &SocketSnapshot) -> (pids: Vec<u32>)
        requires
            self.wf(),
        ensures
            pids@ == new_pids(snap.rows@, self@.known_with(*snap)),
    {
        let mut known = self.known_pids();
        let mut i: usize = 0;
        assert(snap.resolved@.take(0) =~= Seq::<(u32, Option<String>)>::empty());
        while i < snap.resolved.len()
            invariant
                i <= snap.resolved.len(),
                known@ == self@.with_resolved(snap.resolved@.take(i as int)).pid_cache.dom(),
            decreases snap.resolved.len() - i,
        {
            proof {
                let taken = snap.resolved@.take(i + 1);
                assert(taken.drop_last() =~= snap.resolved@.take(i as int));
                assert(taken.last() == snap.resolved@[i as int]);
            }
            known.insert(snap.resolved[i].0);
            assert(known@ =~= self@.with_resolved(
                snap.resolved@.take(i + 1),
            ).pid_cache.dom());
            i = i + 1;
        }
        assert(snap.resolved@.take(i as int) =~= snap.resolved@);
        unknown_pids(&snap.rows, &known)
    }

    /// Apply a socket-table snapshot gathered outside the lock. Returns the
    /// number of rows applied.
    ///
    /// A `complete` snapshot (every table query succeeded) is authoritative:
    /// the port owners are rebuilt from it, so ports belonging to sockets that
    /// have since closed disappear instead of misattributing whichever process
    /// later reuses the ephemeral port. Entries learned from flow events since
    /// the previous refresh are re-applied on top.
    ///
    /// `images` holds what the system answered for the PIDs that
    /// [`FlowTable::missing_pids`] lists.
    pub fn apply_socket_snapshot(
        &mut self,
        snap: SocketSnapshot,
        images: &Vec<(u32, Option<String>)>,
    ) -> (applied: usize)
        requires
            old(self).wf(),
        ensures
            final(self).wf(),
            final(self)@ == old(self)@.refreshed(snap, images@),
            applied == snap.rows@.len(),
    {
        self.keep_resolved(&snap.resolved);
        let ghost before = self@;
        let mut i: usize = 0;
        assert(snap.rows@.take(0) =~= Seq::<SocketTableRow>::empty());
        while i < snap.rows.len()
            invariant
                i <= snap.rows.len(),
                self.wf(),
                self@ == before.with_rows(snap.rows@.take(i as int), images@),
            decreases snap.rows.len() - i,
        {
            proof {
                assert(snap.rows@.take(i + 1).drop_last() =~= snap.rows@.take(i as int));
                assert(snap.rows@.take(i + 1).last() == snap.rows@[i as int]);
            }
            let row = &snap.rows[i];
            let image = image_for(images, row.pid);
            match row.remote {
                // TCP rows carry a peer, so they are a full 5-tuple.
                Some(remote) => {
                    self.insert_flow_inner(row.protocol, row.local, remote, row.pid, image, false);
                },
                // UDP table rows carry no remote address: a wildcard-bound
                // socket can talk to anyone, so only the port mapping is
                // meaningful.
                None => {
                    self.insert_port_owner_inner(row.protocol, row.local, row.pid, image, false);
                },
            }
            i = i + 1;
        }
        assert(snap.rows@.take(i as int) =~= snap.rows@);
        if snap.complete {
            self.rebuild_ports(&snap.rows);
        }
        snap.rows.len()
    }

    /// How many port owners were learned from events since the last refresh.
    pub fn recent_ports(&self) -> (n: usize)
        requires
            self.wf(),
        ensures
            n == self@.recent.dom().len(),
    {
        let ghost entries = self.recent_port_owners.entries();
        proof {
            lemma_all_counted(entries);
        }
        self.recent_port_owners.len()
    }

    /// Count active flows per executable.
    fn count_flows(&self) -> (counts: Table<String, usize>)
        requires
            self.parts_wf(),
        ensures
            counts.wf(),
            forall|exe: Seq<char>| #[trigger] count_in(counts@, exe) == self@.flows_of(exe),
    {
        let ghost entries = self.flows.entries();
        let mut counts: Table<String, usize> = Table::new();
        let mut i: usize = 0;
        assert(entries.take(0) =~= Seq::<(FlowKey, Owner)>::empty());
        while i < self.flows.len()
            invariant
                self.parts_wf(),
                entries == self.flows.entries(),
                i <= entries.len(),
                counts.wf(),
                forall|exe: Seq<char>| #[trigger]
                    count_in(counts@, exe) == count_entries(
                        entries.take(i as int),
                        |owner: Owner| owner.exe_path == exe,
                    ),
                forall|exe: Seq<char>| #[trigger] count_in(counts@, exe) <= i,
            decreases entries.len() - i,
        {
            let exe = &self.flows.value(i).exe_path;
            let ghost before = counts@;
            let n: usize = match counts.get(exe.as_str()) {
                Some(n) => *n,
                None => 0,
            };
            assert(n == count_in(before, exe@));
            counts.insert(exe.clone(), n + 1);
            proof {
                let taken = entries.take(i + 1);
                assert(taken.drop_last() =~= entries.take(i as int));
                assert(taken.last() == entries[i as int]);
                assert forall|other: Seq<char>| #[trigger]
                    count_in(counts@, other) == count_entries(
                        taken,
                        |owner: Owner| owner.exe_path == other,
                    ) && count_in(counts@, other) <= i + 1 by {
                    assert(count_in(before, other) == count_entries(
                        entries.take(i as int),
                        |owner: Owner| owner.exe_path == other,
                    ));
                }
            }
            i = i + 1;
        }
        proof {
            assert(entries.take(i as int) =~= entries);
            assert forall|exe: Seq<char>| #[trigger]
                count_in(counts@, exe) == self@.flows_of(exe) by {
                lemma_count(entries, |owner: Owner| owner.exe_path == exe);
            }
        }
        counts
    }

    /// Produce a one-second snapshot: convert accumulated bytes into per-second
    /// rates, fold into totals + history, reset accumulators, and build the
    /// `ProcessStats` map. Returns `(processes, total_down_rate, total_up_rate)`.
    pub fn snapshot(&mut self) -> (report: (Table<String, ProcessStats>, u64, u64))
        requires
            old(self).wf(),
        ensures
            final(self).wf(),
            final(self)@ == old(self)@.ticked(),
            report.0.wf(),
            report.0@ == old(self)@.report(),
            report.1 == saturated(down_sum(report.0.entries()) as int),
            report.2 == saturated(up_sum(report.0.entries()) as int),
    {
        let ghost start = self@;
        let ghost before = self.counters.entries();
        let flow_counts = self.count_flows();
        let mut out: Table<String, ProcessStats> = Table::new();
        let mut total_down: u64 = 0;
        let mut total_up: u64 = 0;
        let mut i: usize = 0;
        while i < self.counters.len()
            invariant
                old(self).wf(),
                start == old(self)@,
                before == old(self).counters.entries(),
                flow_counts.wf(),
                forall|exe: Seq<char>| #[trigger]
                    count_in(flow_counts@, exe) == start.flows_of(exe),
                self.flows == old(self).flows,
                self.port_owners == old(self).port_owners,
                self.recent_port_owners == old(self).recent_port_owners,
                self.pid_cache == old(self).pid_cache,
                self.counters.wf(),
                self.counters.entries().len() == before.len(),
                i <= before.len(),
                forall|j: int|
                    0 <= j < i ==> #[trigger] self.counters.entries()[j] == (
                        before[j].0,
                        before[j].1.ticked(),
                    ),
                forall|j: int|
                    i <= j < before.len() ==> #[trigger] self.counters.entries()[j] == before[j],
                out.wf(),
                out.entries().len() == i,
                forall|j: int|
                    0 <= j < i ==> #[trigger] out.entries()[j] == (
                        before[j].0,
                        start.stats_of(before[j].0),
                    ),
                total_down == saturated(down_sum(out.entries()) as int),
                total_up == saturated(up_sum(out.entries()) as int),
            decreases before.len() - i,
        {
            let ghost shown = out.entries();
            let exe = self.counters.key(i).clone();
            proof {
                assert(key_at(before, exe@, i as int));
                lemma_position(before, exe@, i as int);
                if has_key(shown, exe@) {
                    let p = position(shown, exe@);
                    assert(key_at(shown, exe@, p));
                    assert(before[p].0 != before[i as int].0);
                }
            }
            let flow_count: usize = match flow_counts.get(exe.as_str()) {
                Some(n) => *n,
                None => 0,
            };
            assert(flow_count == count_in(flow_counts@, exe@));
            assert(flow_count == start.flows_of(exe@));
            let mut c = self.counters.replace(i, ExeCounter::zero());
            let down_rate: u64 = c.down_accum;
            let up_rate: u64 = c.up_accum;
            c.down_total = c.down_total.saturating_add(down_rate);
            c.up_total = c.up_total.saturating_add(up_rate);
            c.down_accum = 0;
            c.up_accum = 0;
            push_history(&mut c.down_history, down_rate);
            push_history(&mut c.up_history, up_rate);
            total_down = total_down.saturating_add(down_rate);
            total_up = total_up.saturating_add(up_rate);
            let stats = ProcessStats {
                pid: c.pid,
                exe_path: exe.clone(),
                name: display_name(exe.as_str()),
                down_rate,
                up_rate,
                down_total: c.down_total,
                up_total: c.up_total,
                down_history: copy_numbers(&c.down_history),
                up_history: copy_numbers(&c.up_history),
                flow_count,
            };
            assert(c@ == before[i as int].1.ticked());
            assert(stats@ == start.stats_of(exe@));
            let _ = self.counters.replace(i, c);
            out.insert(exe, stats);
            proof {
                assert(out.entries() =~= shown.push((before[i as int].0, start.stats_of(before[i as int].0))));
                assert(out.entries().drop_last() =~= shown);
            }
            i = i + 1;
        }
        proof {
            let after = self.counters.entries();
            assert forall|exe: Seq<char>| #[trigger]
                out@.contains_key(exe) == start.report().contains_key(exe) && (out@.contains_key(
                    exe,
                ) ==> out@[exe] == start.report()[exe]) by {
                lemma_aligned(before, out.entries(), exe);
            }
            assert(out@ =~= start.report());
            assert forall|exe: Seq<char>| #[trigger]
                self@.counters.contains_key(exe) == start.ticked().counters.contains_key(exe) && (
                self@.counters.contains_key(exe) ==> self@.counters[exe]
                    == start.ticked().counters[exe] && self@.counters[exe].wf()) by {
                lemma_aligned(before, after, exe);
            }
            assert(self@.counters =~= start.ticked().counters);
        }
        (out, total_down, total_up)
    }
}

/// A flow that was seen resolves from either end.
pub proof fn law_flow_resolves_both_ways(
    t: FlowsView,
    protocol: u8,
    local: SocketAddr,
    remote: SocketAddr,
    pid: u32,
    image: Option<Seq<char>>,
    recent: bool,
)
    requires
        t.exe_of(pid, image).len() > 0,
    ensures
        ({
            let after = t.with_flow(protocol, local, remote, pid, image, recent);
            let exe = Some(t.exe_of(pid, image));
            &&& after.exe_for(protocol, local, remote) == exe
            &&& !t.flows.contains_key(FlowKey { protocol, local: remote, remote: local })
                ==> after.exe_for(protocol, remote, local) == exe
        }),
{
}

/// An attributed flow's own entry decides, whatever the port fallback says.
pub proof fn law_exact_flow_wins_over_fallback(
    t: FlowsView,
    protocol: u8,
    local: SocketAddr,
    remote: SocketAddr,
)
    requires
        t.flows.contains_key(FlowKey { protocol, local, remote }),
        t.flows[FlowKey { protocol, local, remote }].exe_path.len() > 0,
    ensures
        t.exe_for(protocol, local, remote) == Some(
            t.flows[FlowKey { protocol, local, remote }].exe_path,
        ),
{
}

/// Without a flow entry the answer depends on the protocol, the address family
/// and the local port alone: never on the remote end.
pub proof fn law_fallback_ignores_the_remote(
    t: FlowsView,
    protocol: u8,
    local: SocketAddr,
    remote: SocketAddr,
    other_local: SocketAddr,
    other_remote: SocketAddr,
)
    requires
        t.flow_owner(protocol, local, remote) is None,
        t.flow_owner(protocol, other_local, other_remote) is None,
        local.port == other_local.port,
        local.ip is V6 == other_local.ip is V6,
    ensures
        t.exe_for(protocol, local, remote) == t.exe_for(protocol, other_local, other_remote),
{
}

/// Ports of different protocols, families or numbers have owners of their own.
pub proof fn law_port_owners_are_separate(p: u8, a: SocketAddr, q: u8, b: SocketAddr)
    ensures
        port_key_of(p, a) == port_key_of(q, b) <==> p == q && a.port == b.port && (a.ip is V6
            == b.ip is V6),
{
}

/// A wildcard socket outlives its flows: tearing a flow down leaves the port's
/// owner, which then answers for any peer without a flow.
pub proof fn law_teardown_keeps_the_port_owner(
    t: FlowsView,
    protocol: u8,
    local: SocketAddr,
    remote: SocketAddr,
    pid: u32,
    image: Option<Seq<char>>,
    peer: SocketAddr,
)
    requires
        t.exe_of(pid, image).len() > 0,
        local.port != 0,
    ensures
        ({
            let seen = t.with_flow(protocol, local, remote, pid, image, true);
            let torn = FlowsView {
                flows: seen.flows.remove(FlowKey { protocol, local, remote }),
                ..seen
            };
            torn.flow_owner(protocol, local, peer) is None ==> torn.exe_for(protocol, local, peer)
                == Some(t.exe_of(pid, image))
        }),
{
}

proof fn lemma_rows_keep_recent(
    t: FlowsView,
    rows: Seq<SocketTableRow>,
    images: Seq<(u32, Option<String>)>,
)
    ensures
        t.with_rows(rows, images).recent == t.recent,
    decreases rows.len(),
{
    if rows.len() > 0 {
        lemma_rows_keep_recent(t, rows.drop_last(), images);
    }
}

proof fn lemma_resolved_keep_ports(t: FlowsView, resolved: Seq<(u32, Option<String>)>)
    ensures
        t.with_resolved(resolved).recent == t.recent,
        t.with_resolved(resolved).port_owners == t.port_owners,
    decreases resolved.len(),
{
    if resolved.len() > 0 {
        lemma_resolved_keep_ports(t, resolved.drop_last());
    }
}

/// Whether the rows hold an attributed socket on a port.
pub open spec fn open_port(t: FlowsView, rows: Seq<SocketTableRow>, key: PortKey) -> bool {
    exists|i: int|
        0 <= i < rows.len() && port_key_of((#[trigger] rows[i]).protocol, rows[i].local) == key
            && rows[i].local.port != 0 && t.path_of(rows[i].pid, None) is Some
}

proof fn lemma_ports_in_rows(t: FlowsView, rows: Seq<SocketTableRow>, key: PortKey)
    ensures
        t.port_owners_in(rows).contains_key(key) <==> open_port(t, rows, key),
    decreases rows.len(),
{
    if rows.len() > 0 {
        let rest = rows.drop_last();
        lemma_ports_in_rows(t, rest, key);
        let last = rows.len() - 1;
        if open_port(t, rest, key) {
            let i = choose|i: int|
                0 <= i < rest.len() && port_key_of((#[trigger] rest[i]).protocol, rest[i].local)
                    == key && rest[i].local.port != 0 && t.path_of(rest[i].pid, None) is Some;
            assert(rows[i] == rest[i]);
        }
        if open_port(t, rows, key) && !open_port(t, rest, key) {
            let i = choose|i: int|
                0 <= i < rows.len() && port_key_of((#[trigger] rows[i]).protocol, rows[i].local)
                    == key && rows[i].local.port != 0 && t.path_of(rows[i].pid, None) is Some;
            if i < last {
                assert(rest[i] == rows[i]);
            }
        }
        assert(rows[last] == rows.last());
    }
}

/// A socket with a path owns its port: rows whose path is empty never take the
/// port away from it.
pub proof fn law_attributed_row_owns_its_port(t: FlowsView, rows: Seq<SocketTableRow>, i: int)
    requires
        0 <= i < rows.len(),
        rows[i].local.port != 0,
        t.path_of(rows[i].pid, None) matches Some(exe) && exe.len() > 0,
    ensures
        ({
            let key = port_key_of(rows[i].protocol, rows[i].local);
            t.port_owners_in(rows).contains_key(key) && t.port_owners_in(rows)[key].len() > 0
        }),
    decreases rows.len(),
{
    if i < rows.len() - 1 {
        assert(rows.drop_last()[i] == rows[i]);
        law_attributed_row_owns_its_port(t, rows.drop_last(), i);
    }
}

proof fn lemma_resolved_are_known(t: FlowsView, resolved: Seq<(u32, Option<String>)>)
    ensures
        forall|pid: u32| #[trigger]
            t.pid_cache.contains_key(pid) ==> t.with_resolved(resolved).pid_cache.contains_key(pid),
        forall|i: int|
            0 <= i < resolved.len() ==> t.with_resolved(resolved).pid_cache.contains_key(
                (#[trigger] resolved[i]).0,
            ),
    decreases resolved.len(),
{
    if resolved.len() > 0 {
        let rest = resolved.drop_last();
        lemma_resolved_are_known(t, rest);
        assert forall|i: int| 0 <= i < resolved.len() implies t.with_resolved(
            resolved,
        ).pid_cache.contains_key((#[trigger] resolved[i]).0) by {
            if i < rest.len() {
                assert(rest[i] == resolved[i]);
            }
        }
    }
}

/// A sweep that looked up every PID not cached leaves none to ask about.
pub proof fn law_full_sweep_leaves_no_pid_missing(
    t: FlowsView,
    snap: SocketSnapshot,
    known: Set<u32>,
)
    requires
        forall|pid: u32| #[trigger] known.contains(pid) ==> t.pid_cache.contains_key(pid),
        snap.resolved@.len() == new_pids(snap.rows@, known).len(),
        forall|i: int|
            0 <= i < snap.resolved@.len() ==> (#[trigger] snap.resolved@[i]).0 == new_pids(
                snap.rows@,
                known,
            )[i],
    ensures
        new_pids(snap.rows@, t.known_with(snap)) == Seq::<u32>::empty(),
{
    let asked = new_pids(snap.rows@, known);
    let missing = new_pids(snap.rows@, t.known_with(snap));
    lemma_resolved_are_known(t, snap.resolved@);
    law_sweep_resolves_each_new_pid_once(snap.rows@, known);
    law_sweep_resolves_each_new_pid_once(snap.rows@, t.known_with(snap));
    if missing.len() > 0 {
        let pid = missing[0];
        assert(missing.contains(pid));
        if known.contains(pid) {
            assert(t.pid_cache.contains_key(pid));
        } else {
            assert(asked.contains(pid));
            let i = choose|i: int| 0 <= i < asked.len() && asked[i] == pid;
            assert(snap.resolved@[i].0 == pid);
        }
    }
    assert(missing =~= Seq::<u32>::empty());
}

/// A complete sweep is authoritative: afterwards exactly the ports of its
/// attributed sockets and those learned from events have owners, the latter as
/// the events had it, and the overlay of events is used up.
pub proof fn law_complete_refresh_is_authoritative(
    t: FlowsView,
    snap: SocketSnapshot,
    images: Seq<(u32, Option<String>)>,
    key: PortKey,
)
    requires
        snap.complete,
    ensures
        ({
            let after = t.refreshed(snap, images);
            &&& after.port_owners.contains_key(key) <==> t.recent.contains_key(key) || open_port(
                after,
                snap.rows@,
                key,
            )
            &&& t.recent.contains_key(key) ==> after.port_owners[key] == t.recent[key]
            &&& after.recent == Map::<PortKey, Seq<char>>::empty()
        }),
{
    let resolved = t.with_resolved(snap.resolved@);
    let applied = resolved.with_rows(snap.rows@, images);
    let after = t.refreshed(snap, images);
    lemma_resolved_keep_ports(t, snap.resolved@);
    lemma_rows_keep_recent(resolved, snap.rows@, images);
    lemma_ports_in_rows(applied, snap.rows@, key);
    assert(after == applied.rebuilt(snap.rows@));
    assert(forall|pid: u32| after.path_of(pid, None) == applied.path_of(pid, None));
    assert(open_port(after, snap.rows@, key) == open_port(applied, snap.rows@, key));
}

proof fn lemma_rows_keep_other_ports(
    t: FlowsView,
    rows: Seq<SocketTableRow>,
    images: Seq<(u32, Option<String>)>,
    key: PortKey,
)
    requires
        t.port_owners.contains_key(key),
    ensures
        t.with_rows(rows, images).port_owners.contains_key(key),
        (forall|i: int|
            0 <= i < rows.len() ==> port_key_of((#[trigger] rows[i]).protocol, rows[i].local)
                != key) ==> t.with_rows(rows, images).port_owners[key] == t.port_owners[key],
    decreases rows.len(),
{
    if rows.len() > 0 {
        let rest = rows.drop_last();
        lemma_rows_keep_other_ports(t, rest, images, key);
        assert(rows[rows.len() - 1] == rows.last());
        if forall|i: int|
            0 <= i < rows.len() ==> port_key_of((#[trigger] rows[i]).protocol, rows[i].local)
                != key {
            assert forall|i: int| 0 <= i < rest.len() implies port_key_of(
                (#[trigger] rest[i]).protocol,
                rest[i].local,
            ) != key by {
                assert(rest[i] == rows[i]);
            }
        }
    }
}

/// A partial sweep forgets nothing: every port keeps an owner, the same one
/// unless a row of the sweep names the port.
pub proof fn law_partial_refresh_forgets_nothing(
    t: FlowsView,
    snap: SocketSnapshot,
    images: Seq<(u32, Option<String>)>,
    key: PortKey,
)
    requires
        !snap.complete,
        t.port_owners.contains_key(key),
    ensures
        t.refreshed(snap, images).port_owners.contains_key(key),
        (forall|i: int|
            0 <= i < snap.rows@.len() ==> port_key_of(
                (#[trigger] snap.rows@[i]).protocol,
                snap.rows@[i].local,
            ) != key) ==> t.refreshed(snap, images).port_owners[key] == t.port_owners[key],
        t.refreshed(snap, images).recent == t.recent,
{
    let resolved = t.with_resolved(snap.resolved@);
    lemma_resolved_keep_ports(t, snap.resolved@);
    lemma_rows_keep_recent(resolved, snap.rows@, images);
    lemma_rows_keep_other_ports(resolved, snap.rows@, images, key);
}

/// Bytes that passed show up in the next report as the rate, and in the totals
/// from then on; the tick after that starts from nothing.
pub proof fn law_passed_bytes_are_reported(t: FlowsView, exe: Seq<char>, down: u64, up: u64)
    requires
        exe.len() > 0,
    ensures
        ({
            let report = t.with_bytes(exe, down, up).report();
            let counter = t.counter(exe);
            &&& report.contains_key(exe)
            &&& report[exe].down_rate == saturated(counter.down_accum + down)
            &&& report[exe].up_rate == saturated(counter.up_accum + up)
            &&& report[exe].down_total == saturated(counter.down_total + report[exe].down_rate)
            &&& report[exe].up_total == saturated(counter.up_total + report[exe].up_rate)
            &&& t.with_bytes(exe, down, up).ticked().report()[exe].down_rate == 0
            &&& t.with_bytes(exe, down, up).ticked().report()[exe].up_rate == 0
        }),
{
}

/// A report's newest history sample is its rate, its two histories are equally
/// long, and no history is longer than `HISTORY_LEN`.
pub proof fn law_history_is_capped(t: FlowsView, exe: Seq<char>)
    requires
        t.wf(),
        t.counters.contains_key(exe),
    ensures
        t.report()[exe].down_history.len() <= HISTORY_LEN,
        t.report()[exe].up_history.len() <= HISTORY_LEN,
        t.report()[exe].down_history.len() == t.report()[exe].up_history.len(),
        t.report()[exe].down_history.last() == t.report()[exe].down_rate,
        t.report()[exe].up_history.last() == t.report()[exe].up_rate,
        t.ticked().wf(),
{
    assert forall|e: Seq<char>| #[trigger]
        t.ticked().counters.contains_key(e) implies t.ticked().counters[e].wf() by {
        assert(t.counters.contains_key(e));
    }
}

/// One thing that moves the counters.
pub enum Count {
    /// These bytes passed for an executable.
    Bytes { exe: Seq<char>, down: u64, up: u64 },
    /// A second went by.
    Tick,
}

impl FlowsView {
    /// The table after its counters were moved.
    pub open spec fn after_counts(self, counts: Seq<Count>) -> FlowsView
        decreases counts.len(),
    {
        if counts.len() == 0 {
            self
        } else {
            let before = self.after_counts(counts.drop_last());
            match counts.last() {
                Count::Bytes { exe, down, up } => before.with_bytes(exe, down, up),
                Count::Tick => before.ticked(),
            }
        }
    }
}

/// The bytes that passed for an executable: `(down, up)`.
pub open spec fn passed_for(exe: Seq<char>, counts: Seq<Count>) -> (nat, nat)
    decreases counts.len(),
{
    if counts.len() == 0 {
        (0, 0)
    } else {
        let (d, u) = passed_for(exe, counts.drop_last());
        match counts.last() {
            Count::Bytes { exe: other, down, up } if other == exe => (d + down as nat, u + up as nat),
            _ => (d, u),
        }
    }
}

/// Totals are exact: from a fresh table on, and until a count no longer fits,
/// the totals reported for an executable are the bytes that passed for it,
/// however they are spread over the seconds and whatever else passed.
pub proof fn law_totals_add_up(counts: Seq<Count>, exe: Seq<char>)
    requires
        exe.len() > 0,
        passed_for(exe, counts).0 <= u64::MAX,
        passed_for(exe, counts).1 <= u64::MAX,
        FlowsView::empty().after_counts(counts).counters.contains_key(exe),
    ensures
        ({
            let stats = FlowsView::empty().after_counts(counts).report()[exe];
            (stats.down_total as nat, stats.up_total as nat) == passed_for(exe, counts)
        }),
{
    lemma_totals_add_up(counts, exe);
}

proof fn lemma_totals_add_up(counts: Seq<Count>, exe: Seq<char>)
    requires
        exe.len() > 0,
        passed_for(exe, counts).0 <= u64::MAX,
        passed_for(exe, counts).1 <= u64::MAX,
    ensures
        ({
            let counter = FlowsView::empty().after_counts(counts).counter(exe);
            &&& counter.down_total + counter.down_accum == passed_for(exe, counts).0
            &&& counter.up_total + counter.up_accum == passed_for(exe, counts).1
        }),
    decreases counts.len(),
{
    if counts.len() > 0 {
        lemma_totals_add_up(counts.drop_last(), exe);
    }
}

} // verus!
