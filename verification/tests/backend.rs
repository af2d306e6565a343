use throttle::addr::{IpAddr, SocketAddr};
use throttle::backend::engine::{Dir, ShapedBucket};
use throttle::backend::rules::{load, RulesFile};
use throttle::backend::sockets::{SocketSnapshot, SocketTableRow, IPPROTO_TCP};
use throttle::backend::{Action, Event, FlowChange, FlowLog, State, FLOW_EVENT_LOG_LIMIT};
use throttle::types::{Command, Rule};

const APP: &str = "c:\\app\\thing.exe";

fn state() -> State<u32> {
    State::new(load(RulesFile::Missing))
}

fn local() -> SocketAddr {
    SocketAddr::new(IpAddr::v4(10, 0, 0, 1), 50000)
}

fn remote() -> SocketAddr {
    SocketAddr::new(IpAddr::v4(93, 184, 216, 34), 443)
}

fn limit(path: &str, down: u64) -> Rule {
    Rule { exe_path: path.to_string(), down_limit: Some(down), ..Rule::default() }
}

#[test]
fn setting_a_rule_persists_it() {
    let mut s = state();
    let action = s.aggregate(Event::Command(Command::SetRule(limit("C:\\App\\Thing.EXE", 5))));
    assert!(matches!(action, Action::Persist));
    assert_eq!(s.rules.get(APP), Some(&limit(APP, 5)));
}

#[test]
fn removing_a_rule_drops_its_buckets_only() {
    let mut s = state();
    let _ = s.aggregate(Event::Command(Command::SetRule(limit(APP, 5))));
    for dir in [Dir::Down, Dir::Up] {
        s.buckets.insert((APP.to_string(), dir), ShapedBucket::new(5, 0));
        s.buckets.insert(("c:\\other.exe".to_string(), dir), ShapedBucket::new(5, 0));
    }
    let action = s.aggregate(Event::Command(Command::RemoveRule("C:\\APP\\thing.exe".to_string())));
    assert!(matches!(action, Action::Persist));
    assert_eq!(s.rules.len(), 0);
    assert_eq!(s.buckets.len(), 2);
    assert!(s.buckets.contains_key(&("c:\\other.exe".to_string(), Dir::Up)));
    assert!(!s.buckets.contains_key(&(APP.to_string(), Dir::Up)));
}

#[test]
fn shutdown_persists_and_stops() {
    let mut s = state();
    assert!(matches!(s.aggregate(Event::Command(Command::Shutdown)), Action::PersistAndStop));
    assert!(matches!(s.aggregate(Event::Disconnected), Action::PersistAndStop));
    assert!(matches!(s.aggregate(Event::Refused), Action::Stop));
}

#[test]
fn a_tick_publishes_a_snapshot() {
    let mut s = state();
    let _ = s.aggregate(Event::Command(Command::SetRule(limit(APP, 5))));
    s.flows.add_bytes(APP, 100, 20);
    s.flows.add_unattributed(1, 2);
    let Action::Publish(snapshot) = s.aggregate(Event::Tick) else {
        panic!("no snapshot");
    };
    assert_eq!(snapshot.processes.len(), 2);
    assert_eq!((snapshot.total_down_rate, snapshot.total_up_rate), (101, 22));
    assert_eq!(snapshot.rules.get(APP), Some(&limit(APP, 5)));
    // The rates start over, the rules stay.
    let Action::Publish(snapshot) = s.aggregate(Event::Tick) else {
        panic!("no snapshot");
    };
    assert_eq!((snapshot.total_down_rate, snapshot.total_up_rate), (0, 0));
    assert_eq!(snapshot.processes.get(APP).unwrap().down_total, 100);
    assert_eq!(s.rules.len(), 1);
}

#[test]
fn a_refresh_updates_the_flow_table() {
    let mut s = state();
    let row = SocketTableRow { protocol: IPPROTO_TCP, local: local(), remote: None, pid: 9 };
    let snap = SocketSnapshot {
        rows: vec![row],
        resolved: vec![(9, Some(APP.to_string()))],
        complete: true,
    };
    assert!(matches!(s.aggregate(Event::Refresh { snap, images: Vec::new() }), Action::Wait));
    assert_eq!(s.flows.exe_for(IPPROTO_TCP, local(), remote()).as_deref(), Some(APP));
}

#[test]
fn flow_events_come_and_go() {
    let mut s = state();
    let image = Some(APP.to_string());
    assert!(s.wants_image(FlowChange::Established, 9));
    assert!(!s.wants_image(FlowChange::Established, 4));
    assert!(!s.wants_image(FlowChange::Deleted, 9));
    s.on_flow_event(FlowChange::Other, IPPROTO_TCP, local(), remote(), 9, image.clone());
    assert_eq!(s.flows.exe_for(IPPROTO_TCP, local(), remote()), None);
    s.on_flow_event(FlowChange::Established, IPPROTO_TCP, local(), remote(), 9, image);
    assert_eq!(s.flows.exe_for(IPPROTO_TCP, remote(), local()).as_deref(), Some(APP));
    assert!(!s.wants_image(FlowChange::Established, 9));
    s.on_flow_event(FlowChange::Deleted, IPPROTO_TCP, local(), remote(), 9, None);
    assert_eq!(s.flows.exe_for(IPPROTO_TCP, remote(), local()), None);
}

#[test]
fn the_first_events_of_each_protocol_are_logged() {
    let mut log = FlowLog::new();
    for _ in 0..FLOW_EVENT_LOG_LIMIT {
        assert!(log.note(6));
    }
    assert!(!log.note(6));
    assert!(log.note(17));
    assert!(!log.note(6));
}
