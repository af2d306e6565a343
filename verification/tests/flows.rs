use throttle::addr::{IpAddr, SocketAddr};
use throttle::backend::flows::{push_history, FlowTable};
use throttle::backend::sockets::{SocketSnapshot, SocketTableRow, IPPROTO_TCP, IPPROTO_UDP};
use throttle::backend::synthetic::{SYSTEM_EXE, UNKNOWN_EXE};
use throttle::types::HISTORY_LEN;

fn sa(a: [u8; 4], p: u16) -> SocketAddr {
    SocketAddr::new(IpAddr::v4(a[0], a[1], a[2], a[3]), p)
}

fn row(protocol: u8, local: SocketAddr, remote: Option<SocketAddr>, pid: u32) -> SocketTableRow {
    SocketTableRow { protocol, local, remote, pid }
}

/// A sweep that found one socket of a process that it resolved.
fn sweep(row: SocketTableRow, exe: &str) -> SocketSnapshot {
    SocketSnapshot {
        resolved: vec![(row.pid, Some(exe.to_string()))],
        rows: vec![row],
        complete: true,
    }
}

fn empty_sweep(complete: bool) -> SocketSnapshot {
    SocketSnapshot { rows: Vec::new(), resolved: Vec::new(), complete }
}

#[test]
fn exe_for_matches_both_orientations() {
    let mut t = FlowTable::new();
    let local = sa([192, 168, 1, 10], 50000);
    let remote = sa([93, 184, 216, 34], 443);
    t.insert_flow(IPPROTO_TCP, local, remote, 1234, Some("c:\\app\\thing.exe".to_string()));

    assert_eq!(t.exe_for(IPPROTO_TCP, local, remote).as_deref(), Some("c:\\app\\thing.exe"));
    // Swapped orientation (e.g. inbound packet) still resolves.
    assert_eq!(t.exe_for(IPPROTO_TCP, remote, local).as_deref(), Some("c:\\app\\thing.exe"));
    // Unknown protocol does not.
    assert_eq!(t.exe_for(17, local, remote), None);
}

#[test]
fn port_fallback_resolves_wildcard_udp_sockets() {
    let mut t = FlowTable::new();
    // A QUIC socket bound to 0.0.0.0:51000, learned only as a port owner.
    let bound = row(IPPROTO_UDP, sa([0, 0, 0, 0], 51000), None, 77);
    t.apply_socket_snapshot(sweep(bound, "c:\\app\\brave.exe"), &Vec::new());

    let local = sa([192, 168, 1, 10], 51000);
    let remote = sa([142, 250, 1, 1], 443);
    // No 5-tuple entry exists, but the local port resolves.
    assert_eq!(t.exe_for(IPPROTO_UDP, local, remote).as_deref(), Some("c:\\app\\brave.exe"));
    // The *remote* port is never used as a fallback: otherwise any owner of
    // a popular local port would absorb unrelated traffic.
    assert_eq!(t.exe_for(IPPROTO_UDP, remote, local), None);
    // A different protocol on the same port does not match.
    assert_eq!(t.exe_for(IPPROTO_TCP, local, remote), None);
}

#[test]
fn port_fallback_is_address_family_specific() {
    let mut t = FlowTable::new();
    // Only a v6 socket owns port 5353.
    let bound = row(IPPROTO_UDP, SocketAddr::new(IpAddr::V6(0), 5353), None, 88);
    t.apply_socket_snapshot(sweep(bound, "c:\\app\\v6only.exe"), &Vec::new());

    let v4_local = sa([192, 168, 1, 10], 5353);
    let v4_remote = sa([224, 0, 0, 251], 5353);
    assert_eq!(t.exe_for(IPPROTO_UDP, v4_local, v4_remote), None);

    let v6_local = SocketAddr::new(IpAddr::V6(0xfe80 << 112 | 1), 5353);
    let v6_remote = SocketAddr::new(IpAddr::V6(0xff02 << 112 | 0xfb), 5353);
    assert_eq!(
        t.exe_for(IPPROTO_UDP, v6_local, v6_remote).as_deref(),
        Some("c:\\app\\v6only.exe")
    );
}

#[test]
fn authoritative_refresh_drops_stale_ports_and_keeps_recent_ones() {
    let mut t = FlowTable::new();
    // A port learned from an old table read, whose socket has since closed.
    let bound = row(IPPROTO_UDP, sa([0, 0, 0, 0], 51000), None, 1);
    t.apply_socket_snapshot(sweep(bound, "c:\\app\\dead.exe"), &Vec::new());
    // A port learned from a live flow event after that read.
    let peer = sa([10, 9, 9, 9], 53);
    let live = Some("c:\\app\\live.exe".to_string());
    t.insert_flow(IPPROTO_UDP, sa([192, 168, 1, 10], 51001), peer, 2, live);
    assert_eq!(t.recent_ports(), 1);

    // An empty but complete sweep: no sockets exist any more.
    t.apply_socket_snapshot(empty_sweep(true), &Vec::new());

    let local_dead = sa([192, 168, 1, 10], 51000);
    let local_live = sa([192, 168, 1, 10], 51001);
    let remote = sa([142, 250, 1, 1], 443);
    assert_eq!(t.exe_for(IPPROTO_UDP, local_dead, remote), None);
    assert_eq!(t.exe_for(IPPROTO_UDP, local_live, remote).as_deref(), Some("c:\\app\\live.exe"));
    // The overlay is consumed by the rebuild.
    assert_eq!(t.recent_ports(), 0);
}

#[test]
fn partial_refresh_is_not_authoritative() {
    let mut t = FlowTable::new();
    let bound = row(IPPROTO_UDP, sa([0, 0, 0, 0], 51000), None, 77);
    t.apply_socket_snapshot(sweep(bound, "c:\\app\\brave.exe"), &Vec::new());
    // A sweep where a table query failed must not wipe what we know.
    t.apply_socket_snapshot(empty_sweep(false), &Vec::new());
    let local = sa([192, 168, 1, 10], 51000);
    let remote = sa([142, 250, 1, 1], 443);
    assert_eq!(t.exe_for(IPPROTO_UDP, local, remote).as_deref(), Some("c:\\app\\brave.exe"));
}

#[test]
fn exact_flow_wins_over_port_fallback() {
    let mut t = FlowTable::new();
    let local = sa([192, 168, 1, 10], 51000);
    let remote = sa([142, 250, 1, 1], 443);
    t.insert_flow(IPPROTO_UDP, local, remote, 7, Some("c:\\app\\exact.exe".to_string()));
    let bound = row(IPPROTO_UDP, sa([0, 0, 0, 0], 51000), None, 8);
    t.apply_socket_snapshot(sweep(bound, "c:\\app\\other.exe"), &Vec::new());
    t.apply_socket_snapshot(sweep(bound, "c:\\app\\other.exe"), &Vec::new());
    let elsewhere = sa([1, 2, 3, 4], 443);
    assert_eq!(t.exe_for(IPPROTO_UDP, local, elsewhere).as_deref(), Some("c:\\app\\other.exe"));
    assert_eq!(t.exe_for(IPPROTO_UDP, local, remote).as_deref(), Some("c:\\app\\exact.exe"));
}

#[test]
fn unattributed_bytes_land_in_the_unknown_row() {
    let mut t = FlowTable::new();
    t.add_unattributed(4000, 500);
    let (procs, td, tu) = t.snapshot();
    let s = procs.get(UNKNOWN_EXE).unwrap();
    assert_eq!(s.name, "Unknown");
    assert_eq!(s.down_rate, 4000);
    assert_eq!(s.up_rate, 500);
    // Unattributed traffic is part of the link totals.
    assert_eq!(td, 4000);
    assert_eq!(tu, 500);
}

#[test]
fn snapshot_computes_rates_totals_and_history() {
    let mut t = FlowTable::new();
    t.add_bytes("a.exe", 1000, 200);
    let (procs, td, tu) = t.snapshot();
    let s = procs.get("a.exe").unwrap();
    assert_eq!(s.down_rate, 1000);
    assert_eq!(s.up_rate, 200);
    assert_eq!(s.down_total, 1000);
    assert_eq!(s.up_total, 200);
    assert_eq!(s.down_history, vec![1000]);
    assert_eq!(td, 1000);
    assert_eq!(tu, 200);
    assert_eq!(s.name, "a.exe");

    // Second interval: accumulators reset, totals accumulate, history grows.
    t.add_bytes("a.exe", 500, 0);
    let (procs, _, _) = t.snapshot();
    let s = procs.get("a.exe").unwrap();
    assert_eq!(s.down_rate, 500);
    assert_eq!(s.down_total, 1500);
    assert_eq!(s.down_history, vec![1000, 500]);
}

#[test]
fn history_is_capped_at_history_len() {
    let mut t = FlowTable::new();
    for i in 0..(HISTORY_LEN + 10) {
        t.add_bytes("x.exe", i as u64, 0);
        t.snapshot();
    }
    let (procs, _, _) = t.snapshot();
    let s = procs.get("x.exe").unwrap();
    assert_eq!(s.down_history.len(), HISTORY_LEN);
    // Newest sample (last snapshot added 0) is last.
    assert_eq!(*s.down_history.last().unwrap(), 0);
}

#[test]
fn a_fresh_table_knows_nothing() {
    let mut t = FlowTable::default();
    assert!(!t.is_known(4));
    assert_eq!(t.recent_ports(), 0);
    let (report, down, up) = t.snapshot();
    assert_eq!((report.len(), down, up), (0, 0, 0));
}

#[test]
fn torn_down_flows_are_found_by_port_only() {
    let mut t = FlowTable::new();
    let local = sa([192, 168, 1, 10], 50000);
    let remote = sa([93, 184, 216, 34], 443);
    t.insert_flow(IPPROTO_TCP, local, remote, 12, Some("c:\\app\\a.exe".to_string()));
    t.remove_flow(IPPROTO_TCP, local, remote);
    // The port's owner stays until the next complete sweep.
    assert_eq!(t.exe_for(IPPROTO_TCP, local, remote).as_deref(), Some("c:\\app\\a.exe"));
    assert_eq!(t.exe_for(IPPROTO_TCP, remote, local), None);
    t.apply_socket_snapshot(empty_sweep(true), &Vec::new());
    t.apply_socket_snapshot(empty_sweep(true), &Vec::new());
    assert_eq!(t.exe_for(IPPROTO_TCP, local, remote), None);
}

#[test]
fn event_entries_win_over_the_socket_tables() {
    let mut t = FlowTable::new();
    let local = sa([192, 168, 1, 10], 51000);
    t.insert_flow(IPPROTO_UDP, local, sa([9, 9, 9, 9], 53), 5, Some("c:\\new.exe".to_string()));
    let bound = row(IPPROTO_UDP, sa([0, 0, 0, 0], 51000), None, 6);
    assert_eq!(t.apply_socket_snapshot(sweep(bound, "c:\\old.exe"), &Vec::new()), 1);
    let elsewhere = sa([1, 2, 3, 4], 443);
    assert_eq!(t.exe_for(IPPROTO_UDP, local, elsewhere).as_deref(), Some("c:\\new.exe"));
}

#[test]
fn pids_are_resolved_once() {
    let mut t = FlowTable::new();
    let local = sa([192, 168, 1, 10], 50000);
    let remote = sa([93, 184, 216, 34], 443);
    t.insert_flow(IPPROTO_TCP, local, remote, 12, Some("c:\\first.exe".to_string()));
    assert!(t.is_known(12));
    assert!(t.known_pids().contains(&12));
    t.insert_flow(IPPROTO_TCP, local, remote, 12, Some("c:\\second.exe".to_string()));
    assert_eq!(t.exe_for(IPPROTO_TCP, local, remote).as_deref(), Some("c:\\first.exe"));
}

#[test]
fn the_idle_process_owns_nothing_and_the_kernel_is_system() {
    let mut t = FlowTable::new();
    let local = sa([192, 168, 1, 10], 50000);
    let remote = sa([93, 184, 216, 34], 443);
    t.insert_flow(IPPROTO_TCP, local, remote, 0, None);
    assert_eq!(t.exe_for(IPPROTO_TCP, local, remote), None);
    t.insert_flow(IPPROTO_TCP, local, remote, 4, None);
    assert_eq!(t.exe_for(IPPROTO_TCP, local, remote).as_deref(), Some(SYSTEM_EXE));
    let (report, _, _) = t.snapshot();
    let system = report.get(SYSTEM_EXE).unwrap();
    assert_eq!((system.name.as_str(), system.flow_count, system.pid), ("System", 1, 4));
}

#[test]
fn totals_saturate() {
    let mut t = FlowTable::new();
    t.add_bytes("a.exe", u64::MAX, 1);
    t.add_bytes("a.exe", 5, 1);
    t.add_bytes("b.exe", 5, 1);
    let (report, down, up) = t.snapshot();
    assert_eq!(report.get("a.exe").unwrap().down_rate, u64::MAX);
    assert_eq!((down, up), (u64::MAX, 3));
}

#[test]
fn samples_beyond_the_cap_push_the_oldest_out() {
    let mut history: Vec<u64> = (0..HISTORY_LEN as u64).collect();
    push_history(&mut history, 99);
    assert_eq!(history.len(), HISTORY_LEN);
    assert_eq!((history[0], history[HISTORY_LEN - 1]), (1, 99));
}

#[test]
fn totals_are_the_bytes_that_passed() {
    let mut t = FlowTable::new();
    let (mut down, mut up) = (0, 0);
    for i in 0..50u64 {
        t.add_bytes("a.exe", i * i, 3 * i);
        t.add_bytes("b.exe", 7, 7);
        (down, up) = (down + i * i, up + 3 * i);
        if i % 4 == 0 {
            let (report, _, _) = t.snapshot();
            let a = report.get("a.exe").unwrap();
            assert_eq!((a.down_total, a.up_total), (down, up));
        }
    }
}

#[test]
fn an_empty_path_does_not_take_a_port() {
    let sockets = |pids: [u32; 2]| SocketSnapshot {
        rows: pids.map(|pid| row(IPPROTO_UDP, sa([0, 0, 0, 0], 51000), None, pid)).to_vec(),
        resolved: vec![(1, Some("c:\\app\\a.exe".to_string())), (2, Some(String::new()))],
        complete: true,
    };
    let (local, remote) = (sa([192, 168, 1, 10], 51000), sa([142, 250, 1, 1], 443));
    for pids in [[1, 2], [2, 1]] {
        let mut t = FlowTable::new();
        t.apply_socket_snapshot(sockets(pids), &Vec::new());
        assert_eq!(t.exe_for(IPPROTO_UDP, local, remote).as_deref(), Some("c:\\app\\a.exe"));
    }
    let mut t = FlowTable::new();
    t.apply_socket_snapshot(sockets([2, 2]), &Vec::new());
    assert_eq!(t.exe_for(IPPROTO_UDP, local, remote).as_deref(), Some(""));
}

#[test]
fn unresolved_pids_are_asked_about() {
    let mut t = FlowTable::new();
    let (local, remote) = (sa([192, 168, 1, 10], 50000), sa([93, 184, 216, 34], 443));
    t.insert_flow(IPPROTO_TCP, local, remote, 5, Some("c:\\known.exe".to_string()));
    let at = |port, pid| row(IPPROTO_UDP, sa([0, 0, 0, 0], port), None, pid);
    let snap = SocketSnapshot {
        rows: vec![at(1, 8), at(2, 5), at(3, 6), at(4, 7), at(5, 8)],
        resolved: vec![(6, Some("c:\\swept.exe".to_string()))],
        complete: true,
    };
    assert_eq!(t.missing_pids(&snap), vec![8, 7]);
    // Answers for PIDs that are known already do not count.
    let answers = [(8, Some("c:\\asked.exe")), (7, None), (5, Some("x")), (6, Some("y"))];
    let images = answers.map(|(pid, path)| (pid, path.map(str::to_string))).to_vec();
    assert_eq!(t.apply_socket_snapshot(snap, &images), 5);
    let owner = |port| t.exe_for(IPPROTO_UDP, sa([10, 0, 0, 1], port), remote).unwrap();
    assert_eq!(owner(1), "c:\\asked.exe");
    assert_eq!(owner(2), "c:\\known.exe");
    assert_eq!(owner(3), "c:\\swept.exe");
    assert_eq!(owner(4), "pid:7");
    assert_eq!(owner(5), "c:\\asked.exe");
    assert!(t.is_known(7) && t.is_known(8));
}

#[test]
fn both_histories_grow_together() {
    let mut t = FlowTable::new();
    for i in 0..3 {
        t.add_bytes("a.exe", i, 0);
        let (report, _, _) = t.snapshot();
        let a = report.get("a.exe").unwrap();
        assert_eq!((a.down_history.len(), a.up_history.len()), (i as usize + 1, i as usize + 1));
    }
}

#[test]
fn flows_are_counted_per_executable() {
    let mut t = FlowTable::new();
    let remote = sa([93, 184, 216, 34], 443);
    for (port, pid, exe) in [(1, 10, "a.exe"), (2, 11, "b.exe"), (3, 10, "a.exe"), (4, 12, "a.exe")]
    {
        let local = sa([192, 168, 1, 10], port);
        t.insert_flow(IPPROTO_TCP, local, remote, pid, Some(exe.to_string()));
    }
    t.add_bytes("idle.exe", 1, 1);
    t.remove_flow(IPPROTO_TCP, sa([192, 168, 1, 10], 3), remote);
    let (report, _, _) = t.snapshot();
    let count = |exe| report.get(exe).unwrap().flow_count;
    assert_eq!((count("a.exe"), count("b.exe"), count("idle.exe")), (2, 1, 0));
}
