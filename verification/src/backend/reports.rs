//! What the once-a-second reports of the flow table say, in terms of what was
//! seen and counted.

use crate::addr::SocketAddr;
use crate::backend::flows::{
    down_sum, image_in, saturated, up_sum, Count, FlowKey, FlowsView, Owner, PortKey,
};
use crate::backend::sockets::{SocketSnapshot, SocketTableRow};
use crate::backend::synthetic::{last_component, shown_as};
use crate::table::keys_where;
use crate::text::optional;
use crate::types::StatsView;
use vstd::prelude::*;

verus! {

/// The rates that the ticks of a run reported for an executable, oldest first:
/// `(down, up)`.
pub open spec fn rates_reported(
    start: FlowsView,
    counts: Seq<Count>,
    exe: Seq<char>,
) -> Seq<(u64, u64)>
    decreases counts.len(),
{
    if counts.len() == 0 {
        Seq::empty()
    } else {
        let earlier = rates_reported(start, counts.drop_last(), exe);
        let report = start.after_counts(counts.drop_last()).report();
        if counts.last() is Tick && report.contains_key(exe) {
            earlier.push((report[exe].down_rate, report[exe].up_rate))
        } else {
            earlier
        }
    }
}

/// The histories of a report are the rates of the last reports, up to sixty of
/// them, oldest first and its own last: the upload history the upload rates, the
/// download history the download rates.
pub proof fn law_histories_are_the_last_rates(counts: Seq<Count>, exe: Seq<char>)
    requires
        FlowsView::empty().after_counts(counts).counters.contains_key(exe),
    ensures
        ({
            let stats = FlowsView::empty().after_counts(counts).report()[exe];
            let rates = rates_reported(FlowsView::empty(), counts.push(Count::Tick), exe);
            let kept: int = if rates.len() > 60 {
                60
            } else {
                rates.len() as int
            };
            let first = rates.len() - kept;
            &&& stats.down_history.len() == kept && stats.up_history.len() == kept
            &&& forall|i: int|
                0 <= i < kept ==> #[trigger] stats.down_history[i] == rates[first + i].0
            &&& forall|i: int|
                0 <= i < kept ==> #[trigger] stats.up_history[i] == rates[first + i].1
        }),
{
    let more = counts.push(Count::Tick);
    assert(more.drop_last() =~= counts);
    lemma_histories(more, exe);
    let before = FlowsView::empty().after_counts(counts);
    assert(before.ticked().counter(exe) == before.counters[exe].ticked());
}

proof fn lemma_histories(counts: Seq<Count>, exe: Seq<char>)
    ensures
        ({
            let counter = FlowsView::empty().after_counts(counts).counter(exe);
            let rates = rates_reported(FlowsView::empty(), counts, exe);
            let kept: int = if rates.len() > 60 {
                60
            } else {
                rates.len() as int
            };
            let first = rates.len() - kept;
            &&& counter.down_history.len() == kept && counter.up_history.len() == kept
            &&& forall|i: int|
                0 <= i < kept ==> #[trigger] counter.down_history[i] == rates[first + i].0
            &&& forall|i: int|
                0 <= i < kept ==> #[trigger] counter.up_history[i] == rates[first + i].1
        }),
    decreases counts.len(),
{
    if counts.len() > 0 {
        lemma_histories(counts.drop_last(), exe);
    }
}

/// A tick's history without its last sample is the end of the one before it, and
/// only what no longer fits is gone.
pub proof fn law_a_tick_appends_to_the_histories(t: FlowsView, counts: Seq<Count>, exe: Seq<char>)
    requires
        t.counters.contains_key(exe),
        t.wf(),
        forall|i: int| 0 <= i < counts.len() ==> !(#[trigger] counts[i] is Tick),
    ensures
        ({
            let (was, is) = (t.report()[exe], t.ticked().after_counts(counts).report()[exe]);
            let n = was.up_history.len();
            let m = was.down_history.len();
            let up = is.up_history.drop_last();
            let down = is.down_history.drop_last();
            &&& is.up_history.len() == if n < 60 {
                n + 1
            } else {
                60
            }
            &&& is.down_history.len() == if m < 60 {
                m + 1
            } else {
                60
            }
            &&& up == was.up_history.subrange(n - up.len(), n as int)
            &&& down == was.down_history.subrange(m - down.len(), m as int)
            &&& is.up_history.last() == is.up_rate
            &&& is.down_history.last() == is.down_rate
        }),
{
    lemma_bytes_keep_history(t.ticked(), counts, exe);
}

proof fn lemma_bytes_keep_history(t: FlowsView, counts: Seq<Count>, exe: Seq<char>)
    requires
        t.counters.contains_key(exe),
        forall|i: int| 0 <= i < counts.len() ==> !(#[trigger] counts[i] is Tick),
    ensures
        ({
            let after = t.after_counts(counts);
            &&& after.counters.contains_key(exe)
            &&& after.counters[exe].up_history == t.counters[exe].up_history
            &&& after.counters[exe].down_history == t.counters[exe].down_history
        }),
    decreases counts.len(),
{
    if counts.len() > 0 {
        let rest = counts.drop_last();
        assert forall|i: int| 0 <= i < rest.len() implies !(#[trigger] rest[i] is Tick) by {
            assert(rest[i] == counts[i]);
        }
        assert(!(counts[counts.len() - 1] is Tick));
        lemma_bytes_keep_history(t, rest, exe);
    }
}

/// The bytes that passed for an executable since the last tick: `(down, up)`.
pub open spec fn since_last_tick(exe: Seq<char>, counts: Seq<Count>) -> (nat, nat)
    decreases counts.len(),
{
    if counts.len() == 0 {
        (0, 0)
    } else {
        let (d, u) = since_last_tick(exe, counts.drop_last());
        match counts.last() {
            Count::Bytes { exe: other, down, up } if other == exe => (
                d + down as nat,
                u + up as nat,
            ),
            Count::Bytes { .. } => (d, u),
            Count::Tick => (0, 0),
        }
    }
}

/// A reported rate is the bytes that passed since the tick before, while their
/// sum fits; the download rate those down, the upload rate those up.
pub proof fn law_rates_are_the_bytes_of_a_second(counts: Seq<Count>, exe: Seq<char>)
    requires
        exe.len() > 0,
        FlowsView::empty().after_counts(counts).counters.contains_key(exe),
        forall|n: int|
            0 <= n <= counts.len() ==> {
                let (d, u) = #[trigger] since_last_tick(exe, counts.take(n));
                d <= u64::MAX && u <= u64::MAX
            },
    ensures
        ({
            let stats = FlowsView::empty().after_counts(counts).report()[exe];
            &&& stats.down_rate == since_last_tick(exe, counts).0
            &&& stats.up_rate == since_last_tick(exe, counts).1
        }),
{
    lemma_rates(counts, exe);
}

proof fn lemma_rates(counts: Seq<Count>, exe: Seq<char>)
    requires
        exe.len() > 0,
        forall|n: int|
            0 <= n <= counts.len() ==> {
                let (d, u) = #[trigger] since_last_tick(exe, counts.take(n));
                d <= u64::MAX && u <= u64::MAX
            },
    ensures
        ({
            let counter = FlowsView::empty().after_counts(counts).counter(exe);
            &&& counter.down_accum == since_last_tick(exe, counts).0
            &&& counter.up_accum == since_last_tick(exe, counts).1
        }),
    decreases counts.len(),
{
    if counts.len() > 0 {
        let rest = counts.drop_last();
        assert forall|n: int| 0 <= n <= rest.len() implies {
            let (d, u) = #[trigger] since_last_tick(exe, rest.take(n));
            d <= u64::MAX && u <= u64::MAX
        } by {
            assert(rest.take(n) =~= counts.take(n));
        }
        lemma_rates(rest, exe);
        assert(counts.take(counts.len() as int) =~= counts);
        let (d, u) = since_last_tick(exe, counts.take(counts.len() as int));
        assert(d <= u64::MAX && u <= u64::MAX);
    }
}

/// An executable is reported from when it was first seen or counted on; a tick
/// takes nobody off the list. What was counted but never seen has no PID.
pub proof fn law_reported_stay_reported(t: FlowsView, exe: Seq<char>, down: u64, up: u64)
    requires
        exe.len() > 0,
    ensures
        t.with_bytes(exe, down, up).report().contains_key(exe),
        t.report().contains_key(exe) ==> t.ticked().report().contains_key(exe),
        t.report().contains_key(exe) <==> t.counters.contains_key(exe),
        !t.report().contains_key(exe) ==> t.with_bytes(exe, down, up).report()[exe].pid == 0,
{
}

/// A flow of an executable is one more in its report, if it was not known
/// before; other executables have as many as before. The report shows the PID
/// that was seen last, the path it is kept under and its display name.
pub proof fn law_new_flow_is_counted(
    t: FlowsView,
    protocol: u8,
    local: SocketAddr,
    remote: SocketAddr,
    pid: u32,
    image: Option<Seq<char>>,
    recent: bool,
    other: Seq<char>,
)
    requires
        t.flows.dom().finite(),
        !t.flows.contains_key(FlowKey { protocol, local, remote }),
    ensures
        ({
            let exe = t.exe_of(pid, image);
            let after = t.with_flow(protocol, local, remote, pid, image, recent);
            &&& after.flows.dom().finite()
            &&& after.flows_of(exe) == t.flows_of(exe) + 1
            &&& other != exe ==> after.flows_of(other) == t.flows_of(other)
            &&& exe.len() > 0 ==> {
                let stats = after.report()[exe];
                &&& after.report().contains_key(exe)
                &&& stats.pid == pid
                &&& stats.exe_path == exe
                &&& stats.name == shown_as(exe)
                &&& stats.flow_count == t.flows_of(exe) + 1
            }
        }),
{
    let exe = t.exe_of(pid, image);
    let key = FlowKey { protocol, local, remote };
    let after = t.with_flow(protocol, local, remote, pid, image, recent);
    let mine = |owner: Owner| owner.exe_path == exe;
    assert(keys_where(after.flows, mine) =~= keys_where(t.flows, mine).insert(key));
    if other != exe {
        let theirs = |owner: Owner| owner.exe_path == other;
        assert(keys_where(after.flows, theirs) =~= keys_where(t.flows, theirs));
    }
}

/// A flow that ends is one less in the report of its executable and of no other.
/// An executable without flows has none.
pub proof fn law_ended_flow_is_not_counted(t: FlowsView, key: FlowKey, other: Seq<char>)
    requires
        t.flows.dom().finite(),
        t.flows.contains_key(key),
    ensures
        ({
            let exe = t.flows[key].exe_path;
            let after = FlowsView { flows: t.flows.remove(key), ..t };
            &&& after.flows_of(exe) == t.flows_of(exe) - 1
            &&& other != exe ==> after.flows_of(other) == t.flows_of(other)
        }),
        FlowsView::empty().flows_of(other) == 0,
{
    let exe = t.flows[key].exe_path;
    let after = FlowsView { flows: t.flows.remove(key), ..t };
    let mine = |owner: Owner| owner.exe_path == exe;
    assert(keys_where(after.flows, mine) =~= keys_where(t.flows, mine).remove(key));
    let theirs = |owner: Owner| owner.exe_path == other;
    if other != exe {
        assert(keys_where(after.flows, theirs) =~= keys_where(t.flows, theirs));
    }
    assert(keys_where(FlowsView::empty().flows, theirs) =~= Set::empty());
}

/// What a flow that was seen leaves in the table: its entry, its executable as
/// the owner of the local port if there is one, and nothing else but the PID's
/// path.
pub proof fn law_seen_flow_is_recorded(
    t: FlowsView,
    protocol: u8,
    local: SocketAddr,
    remote: SocketAddr,
    pid: u32,
    image: Option<Seq<char>>,
    recent: bool,
    port: PortKey,
    key: FlowKey,
)
    ensures
        ({
            let exe = t.exe_of(pid, image);
            let after = t.with_flow(protocol, local, remote, pid, image, recent);
            let mine = PortKey { protocol, v6: local.ip is V6, port: local.port };
            let owns = exe.len() > 0 && local.port != 0;
            &&& after.flows.contains_key(FlowKey { protocol, local, remote })
            &&& after.flows[FlowKey { protocol, local, remote }].pid == pid
            &&& after.flows[FlowKey { protocol, local, remote }].exe_path == exe
            &&& key != (FlowKey { protocol, local, remote }) ==> after.flows.contains_key(key)
                == t.flows.contains_key(key) && after.flows[key] == t.flows[key]
            &&& owns ==> after.port_owners.contains_key(mine) && after.port_owners[mine] == exe
            &&& owns && recent ==> after.recent.contains_key(mine) && after.recent[mine] == exe
            &&& !owns ==> after.port_owners == t.port_owners && after.recent == t.recent
            &&& !recent ==> after.recent == t.recent
            &&& port != mine ==> after.port_owners.contains_key(port) == t.port_owners.contains_key(
                port,
            ) && after.port_owners[port] == t.port_owners[port]
            &&& after.pid_cache.contains_key(pid)
        }),
{
}

/// What a socket without a peer leaves in the table: its executable as the owner
/// of the local port, and no flow.
pub proof fn law_seen_socket_is_recorded(
    t: FlowsView,
    protocol: u8,
    local: SocketAddr,
    pid: u32,
    image: Option<Seq<char>>,
    recent: bool,
    port: PortKey,
)
    ensures
        ({
            let exe = t.exe_of(pid, image);
            let after = t.with_port_owner(protocol, local, pid, image, recent);
            let mine = PortKey { protocol, v6: local.ip is V6, port: local.port };
            let owns = exe.len() > 0 && local.port != 0;
            &&& after.flows == t.flows
            &&& owns ==> after.port_owners.contains_key(mine) && after.port_owners[mine] == exe
            &&& owns && recent ==> after.recent.contains_key(mine) && after.recent[mine] == exe
            &&& !owns ==> after.port_owners == t.port_owners && after.recent == t.recent
            &&& !recent ==> after.recent == t.recent
            &&& port != mine ==> after.port_owners.contains_key(port) == t.port_owners.contains_key(
                port,
            ) && after.port_owners[port] == t.port_owners[port]
            &&& exe.len() > 0 ==> after.report().contains_key(exe) && after.report()[exe].pid == pid
        }),
{
}

/// What was counted for an executable stays when it is seen again, and when
/// anything is seen of another.
pub proof fn law_seeing_keeps_the_counts(
    t: FlowsView,
    protocol: u8,
    local: SocketAddr,
    remote: SocketAddr,
    pid: u32,
    image: Option<Seq<char>>,
    recent: bool,
    exe: Seq<char>,
)
    ensures
        ({
            let after = t.with_flow(protocol, local, remote, pid, image, recent);
            let (was, is) = (t.counter(exe), after.counter(exe));
            &&& is.down_accum == was.down_accum && is.up_accum == was.up_accum
            &&& is.down_total == was.down_total && is.up_total == was.up_total
            &&& is.down_history == was.down_history && is.up_history == was.up_history
            &&& exe != t.exe_of(pid, image) ==> is.pid == was.pid
        }),
{
}

/// A PID keeps the path it was first resolved to.
pub proof fn law_first_path_stays(
    t: FlowsView,
    pid: u32,
    image: Option<Seq<char>>,
    later: Option<Seq<char>>,
    other: u32,
)
    ensures
        t.learned(pid, image).path_of(pid, later) == t.path_of(pid, image),
        t.pid_cache.contains_key(pid) ==> t.path_of(pid, image) == t.pid_cache[pid],
        other != pid ==> t.learned(pid, image).path_of(other, later) == t.path_of(other, later),
{
}

/// Paths that a sweep brings fill gaps only: a PID that is cached keeps its path,
/// and of several for one PID the first counts.
pub proof fn law_resolved_paths_fill_gaps(
    t: FlowsView,
    resolved: Seq<(u32, Option<String>)>,
    i: int,
    pid: u32,
)
    requires
        0 <= i < resolved.len(),
        forall|j: int| 0 <= j < i ==> (#[trigger] resolved[j]).0 != resolved[i].0,
    ensures
        ({
            let after = t.with_resolved(resolved);
            let (mine, path) = resolved[i];
            &&& t.pid_cache.contains_key(pid) ==> after.pid_cache.contains_key(pid)
                && after.pid_cache[pid] == t.pid_cache[pid]
            &&& after.pid_cache.contains_key(mine)
            &&& !t.pid_cache.contains_key(mine) ==> after.pid_cache[mine] == optional(path)
            &&& after.flows == t.flows
            &&& after.counters == t.counters
            &&& after.port_owners == t.port_owners
            &&& after.recent == t.recent
        }),
    decreases resolved.len(),
{
    let rest = resolved.drop_last();
    if i < rest.len() {
        law_resolved_paths_fill_gaps(t, rest, i, pid);
    } else {
        lemma_resolved(t, rest, resolved[i].0);
        lemma_resolved(t, rest, pid);
    }
}

proof fn lemma_resolved(t: FlowsView, resolved: Seq<(u32, Option<String>)>, pid: u32)
    ensures
        ({
            let after = t.with_resolved(resolved);
            &&& t.pid_cache.contains_key(pid) ==> after.pid_cache.contains_key(pid)
                && after.pid_cache[pid] == t.pid_cache[pid]
            &&& (forall|j: int| 0 <= j < resolved.len() ==> (#[trigger] resolved[j]).0 != pid)
                ==> after.pid_cache.contains_key(pid) == t.pid_cache.contains_key(pid)
            &&& after.flows == t.flows
            &&& after.counters == t.counters
            &&& after.port_owners == t.port_owners
            &&& after.recent == t.recent
        }),
    decreases resolved.len(),
{
    if resolved.len() > 0 {
        let rest = resolved.drop_last();
        lemma_resolved(t, rest, pid);
        if forall|j: int| 0 <= j < resolved.len() ==> (#[trigger] resolved[j]).0 != pid {
            assert forall|j: int| 0 <= j < rest.len() implies (#[trigger] rest[j]).0 != pid by {
                assert(resolved[j].0 != pid);
            }
            assert(resolved[resolved.len() - 1].0 != pid);
        }
    }
}

/// Every row with a peer is a flow of its process once the rows were applied, if
/// no later row speaks of the same flow.
pub proof fn law_rows_become_flows(
    t: FlowsView,
    rows: Seq<SocketTableRow>,
    images: Seq<(u32, Option<String>)>,
    i: int,
    remote: SocketAddr,
)
    requires
        0 <= i < rows.len(),
        rows[i].remote == Some(remote),
        forall|j: int|
            i < j < rows.len() ==> (#[trigger] rows[j]).protocol != rows[i].protocol
                || rows[j].local != rows[i].local || rows[j].remote != rows[i].remote,
    ensures
        ({
            let key = FlowKey { protocol: rows[i].protocol, local: rows[i].local, remote };
            let after = t.with_rows(rows, images);
            &&& after.flows.contains_key(key)
            &&& after.flows[key].pid == rows[i].pid
            &&& after.flows[key].exe_path == t.with_rows(rows.take(i), images).exe_of(
                rows[i].pid,
                image_in(images, rows[i].pid),
            )
        }),
    decreases rows.len(),
{
    let rest = rows.drop_last();
    if i < rest.len() {
        assert(rest.take(i) =~= rows.take(i));
        assert forall|j: int| i < j < rest.len() implies (#[trigger] rest[j]).protocol
            != rest[i].protocol || rest[j].local != rest[i].local || rest[j].remote
            != rest[i].remote by {
            assert(rest[j] == rows[j]);
        }
        law_rows_become_flows(t, rest, images, i, remote);
        assert(rows[rows.len() - 1].protocol != rows[i].protocol || rows[rows.len() - 1].local
            != rows[i].local || rows[rows.len() - 1].remote != rows[i].remote);
    } else {
        assert(rest =~= rows.take(i));
    }
}

/// The fallback key of a row's local end.
pub open spec fn port_of(row: SocketTableRow) -> PortKey {
    PortKey { protocol: row.protocol, v6: row.local.ip is V6, port: row.local.port }
}

/// The executable that a row is kept under when its turn comes.
pub open spec fn row_exe(
    t: FlowsView,
    rows: Seq<SocketTableRow>,
    images: Seq<(u32, Option<String>)>,
    i: int,
) -> Seq<char> {
    t.with_rows(rows.take(i), images).exe_of(rows[i].pid, image_in(images, rows[i].pid))
}

/// Every row that is kept under an executable, with a peer or without, makes that
/// the owner of its port once the rows were applied, if no later row on the port is
/// kept under one; its PID is then cached.
pub proof fn law_rows_own_their_ports(
    t: FlowsView,
    rows: Seq<SocketTableRow>,
    images: Seq<(u32, Option<String>)>,
    i: int,
)
    requires
        0 <= i < rows.len(),
        rows[i].local.port != 0,
        row_exe(t, rows, images, i).len() > 0,
        forall|j: int|
            i < j < rows.len() ==> port_of(#[trigger] rows[j]) != port_of(rows[i]) || row_exe(
                t,
                rows,
                images,
                j,
            ).len() == 0,
    ensures
        ({
            let after = t.with_rows(rows, images);
            &&& after.port_owners.contains_key(port_of(rows[i]))
            &&& after.port_owners[port_of(rows[i])] == row_exe(t, rows, images, i)
            &&& after.pid_cache.contains_key(rows[i].pid)
            &&& after.report().contains_key(row_exe(t, rows, images, i))
        }),
    decreases rows.len(),
{
    let rest = rows.drop_last();
    if i < rest.len() {
        assert(rest.take(i) =~= rows.take(i));
        assert forall|j: int| i < j < rest.len() implies port_of(#[trigger] rest[j]) != port_of(
            rest[i],
        ) || row_exe(t, rest, images, j).len() == 0 by {
            assert(rest.take(j) =~= rows.take(j));
            assert(rest[j] == rows[j]);
        }
        law_rows_own_their_ports(t, rest, images, i);
        let last = rows.len() - 1;
        assert(rows.take(last) =~= rest);
        assert(port_of(rows[last]) != port_of(rows[i]) || row_exe(t, rows, images, last).len()
            == 0);
    } else {
        assert(rest =~= rows.take(i));
    }
}

/// Of the rows on one port the last with a path that is not empty owns it after a
/// complete sweep, unless an event told otherwise.
pub proof fn law_last_row_owns_the_port(
    t: FlowsView,
    snap: SocketSnapshot,
    images: Seq<(u32, Option<String>)>,
    i: int,
    exe: Seq<char>,
)
    requires
        snap.complete,
        0 <= i < snap.rows@.len(),
        snap.rows@[i].local.port != 0,
        !t.recent.contains_key(port_of(snap.rows@[i])),
        exe.len() > 0,
        t.refreshed(snap, images).path_of(snap.rows@[i].pid, None) == Some(exe),
        forall|j: int|
            i < j < snap.rows@.len() ==> port_of(#[trigger] snap.rows@[j]) != port_of(
                snap.rows@[i],
            ) || t.refreshed(snap, images).exe_of(snap.rows@[j].pid, None).len() == 0,
    ensures
        ({
            let after = t.refreshed(snap, images);
            &&& after.port_owners.contains_key(port_of(snap.rows@[i]))
            &&& after.port_owners[port_of(snap.rows@[i])] == exe
        }),
{
    let rows = snap.rows@;
    let after = t.refreshed(snap, images);
    let applied = t.with_resolved(snap.resolved@).with_rows(rows, images);
    lemma_resolved(t, snap.resolved@, 0);
    lemma_rows_keep_overlay(t.with_resolved(snap.resolved@), rows, images);
    assert(forall|pid: u32| after.path_of(pid, None) == applied.path_of(pid, None));
    assert forall|j: int| i < j < rows.len() implies port_of(#[trigger] rows[j]) != port_of(rows[i])
        || applied.exe_of(rows[j].pid, None).len() == 0 by {
        assert(after.exe_of(rows[j].pid, None) == applied.exe_of(rows[j].pid, None));
    }
    lemma_last_row(applied, rows, i, exe);
}

proof fn lemma_rows_keep_overlay(
    t: FlowsView,
    rows: Seq<SocketTableRow>,
    images: Seq<(u32, Option<String>)>,
)
    ensures
        t.with_rows(rows, images).recent == t.recent,
    decreases rows.len(),
{
    if rows.len() > 0 {
        lemma_rows_keep_overlay(t, rows.drop_last(), images);
    }
}

proof fn lemma_last_row(t: FlowsView, rows: Seq<SocketTableRow>, i: int, exe: Seq<char>)
    requires
        0 <= i < rows.len(),
        rows[i].local.port != 0,
        exe.len() > 0,
        t.path_of(rows[i].pid, None) == Some(exe),
        forall|j: int|
            i < j < rows.len() ==> port_of(#[trigger] rows[j]) != port_of(rows[i]) || t.exe_of(
                rows[j].pid,
                None,
            ).len() == 0,
    ensures
        t.port_owners_in(rows).contains_key(port_of(rows[i])),
        t.port_owners_in(rows)[port_of(rows[i])] == exe,
    decreases rows.len(),
{
    let rest = rows.drop_last();
    if i < rest.len() {
        assert forall|j: int| i < j < rest.len() implies port_of(#[trigger] rest[j]) != port_of(
            rest[i],
        ) || t.exe_of(rest[j].pid, None).len() == 0 by {
            assert(rest[j] == rows[j]);
        }
        lemma_last_row(t, rest, i, exe);
        let last = rows[rows.len() - 1];
        assert(port_of(last) != port_of(rows[i]) || t.exe_of(last.pid, None).len() == 0);
    }
}

/// What rows say nothing of stays: flows that no row names, the counts, and after a
/// complete sweep too.
pub proof fn law_sweeps_keep_other_flows(
    t: FlowsView,
    snap: SocketSnapshot,
    images: Seq<(u32, Option<String>)>,
    key: FlowKey,
    exe: Seq<char>,
)
    requires
        forall|i: int|
            0 <= i < snap.rows@.len() ==> (#[trigger] snap.rows@[i]).protocol != key.protocol
                || snap.rows@[i].local != key.local || snap.rows@[i].remote != Some(key.remote),
    ensures
        ({
            let after = t.refreshed(snap, images);
            let (was, is) = (t.counter(exe), after.counter(exe));
            &&& after.flows.contains_key(key) == t.flows.contains_key(key)
            &&& after.flows[key] == t.flows[key]
            &&& is.down_accum == was.down_accum && is.up_accum == was.up_accum
            &&& is.down_total == was.down_total && is.up_total == was.up_total
            &&& is.down_history == was.down_history && is.up_history == was.up_history
        }),
{
    lemma_resolved(t, snap.resolved@, 0);
    lemma_rows_keep_other_flows(t.with_resolved(snap.resolved@), snap.rows@, images, key, exe);
}

proof fn lemma_rows_keep_other_flows(
    t: FlowsView,
    rows: Seq<SocketTableRow>,
    images: Seq<(u32, Option<String>)>,
    key: FlowKey,
    exe: Seq<char>,
)
    requires
        forall|i: int|
            0 <= i < rows.len() ==> (#[trigger] rows[i]).protocol != key.protocol || rows[i].local
                != key.local || rows[i].remote != Some(key.remote),
    ensures
        ({
            let after = t.with_rows(rows, images);
            let (was, is) = (t.counter(exe), after.counter(exe));
            &&& after.flows.contains_key(key) == t.flows.contains_key(key)
            &&& after.flows[key] == t.flows[key]
            &&& is.down_accum == was.down_accum && is.up_accum == was.up_accum
            &&& is.down_total == was.down_total && is.up_total == was.up_total
            &&& is.down_history == was.down_history && is.up_history == was.up_history
        }),
    decreases rows.len(),
{
    if rows.len() > 0 {
        let rest = rows.drop_last();
        assert forall|i: int| 0 <= i < rest.len() implies (#[trigger] rest[i]).protocol
            != key.protocol || rest[i].local != key.local || rest[i].remote != Some(key.remote) by {
            assert(rest[i] == rows[i]);
        }
        lemma_rows_keep_other_flows(t, rest, images, key, exe);
        assert(rows[rows.len() - 1].protocol != key.protocol || rows[rows.len() - 1].local
            != key.local || rows[rows.len() - 1].remote != Some(key.remote));
    }
}

/// The image path for a PID is that of the last entry for it.
pub proof fn law_last_image_counts(
    images: Seq<(u32, Option<String>)>,
    pid: u32,
    image: Option<String>,
    other: u32,
)
    ensures
        image_in(Seq::empty(), pid) is None,
        image_in(images.push((pid, image)), pid) == match image {
            Some(path) => Some(path@),
            None => None,
        },
        other != pid ==> image_in(images.push((other, image)), pid) == image_in(images, pid),
{
    assert(images.push((other, image)).drop_last() =~= images);
}

/// A sum that does not fit is the largest number instead.
pub proof fn law_sums_saturate(n: int)
    requires
        n >= 0,
    ensures
        n <= 0xffff_ffff_ffff_ffff ==> saturated(n) == n,
        n > 0xffff_ffff_ffff_ffff ==> saturated(n) == 0xffff_ffff_ffff_ffffu64,
{
}

/// The totals of a report are the sums over its rows.
pub proof fn law_total_rates_are_sums(
    report: Seq<(Seq<char>, StatsView)>,
    row: (Seq<char>, StatsView),
)
    ensures
        down_sum(Seq::empty()) == 0,
        up_sum(Seq::empty()) == 0,
        down_sum(report.push(row)) == down_sum(report) + row.1.down_rate,
        up_sum(report.push(row)) == up_sum(report) + row.1.up_rate,
{
    assert(report.push(row).drop_last() =~= report);
}

/// The display name of a path is what stands behind its last separator, a
/// backslash or a slash; the synthetic rows have names of their own.
pub proof fn law_names_are_last_components(directory: Seq<char>, name: Seq<char>)
    requires
        forall|i: int| 0 <= i < name.len() ==> name[i] != '\\' && name[i] != '/',
    ensures
        last_component(name) == name,
        directory.len() > 0 && (directory.last() == '\\' || directory.last() == '/')
            ==> last_component(directory + name) == name,
        shown_as("<unknown>"@) == "Unknown"@,
        shown_as("system"@) == "System"@,
        directory + name != "<unknown>"@ && directory + name != "system"@ ==> shown_as(
            directory + name,
        ) == last_component(directory + name),
    decreases name.len(),
{
    reveal_strlit("<unknown>");
    reveal_strlit("system");
    assert("<unknown>"@.len() != "system"@.len());
    if name.len() > 0 {
        let rest = name.drop_last();
        assert forall|i: int| 0 <= i < rest.len() implies rest[i] != '\\' && rest[i] != '/' by {
            assert(name[i] != '\\' && name[i] != '/');
        }
        law_names_are_last_components(directory, rest);
        assert((directory + name).drop_last() =~= directory + rest);
        assert(name[name.len() - 1] != '\\' && name[name.len() - 1] != '/');
        assert(name =~= rest.push(name.last()));
    } else {
        assert(directory + name =~= directory);
        assert(name =~= Seq::<char>::empty());
    }
}

} // verus!
