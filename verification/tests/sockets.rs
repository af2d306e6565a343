use std::collections::HashSet;
use throttle::addr::{IpAddr, SocketAddr};
use throttle::backend::sockets::{
    has_image, image_path, port_from_dword, read_tcp_table, read_udp_table, resolve_pid_path,
    SocketRow, Sweep, TableError, AF_INET, AF_INET6, IPPROTO_TCP, IPPROTO_UDP,
};
use throttle::backend::synthetic::SYSTEM_EXE;

#[test]
fn port_dword_conversion_is_network_order() {
    // Port 443 in network byte order is bytes [0x01, 0xBB]; stored in the
    // low word of a dword on a little-endian machine that is 0x0000BB01.
    let dw = 0x0000_BB01u32;
    assert_eq!(port_from_dword(dw), 443);
}

#[test]
fn system_and_unresolvable_pids_get_synthetic_paths() {
    assert_eq!(resolve_pid_path(4, None).as_deref(), Some(SYSTEM_EXE));
    assert_eq!(resolve_pid_path(0, None), None);
    // A PID that certainly cannot be opened still yields a stable key.
    let ghost = resolve_pid_path(0x7fff_fff0, None).unwrap();
    assert!(ghost.starts_with("pid:"), "got {ghost}");
}

#[test]
fn resolved_paths_are_kept() {
    let path = Some("c:\\app\\thing.exe".to_string());
    assert_eq!(resolve_pid_path(1234, path.clone()), path);
    assert_eq!(resolve_pid_path(0, path.clone()), None);
    assert_eq!(resolve_pid_path(4, path).as_deref(), Some(SYSTEM_EXE));
    assert_eq!(resolve_pid_path(1234, None).as_deref(), Some("pid:1234"));
}

#[test]
fn only_real_processes_have_an_image() {
    assert!(!has_image(0));
    assert!(!has_image(4));
    assert!(has_image(8));
}

#[test]
fn image_paths_are_lowercase_text() {
    let units: Vec<u16> = "C:\\App\\ÄPFEL.EXE".encode_utf16().collect();
    assert_eq!(image_path(&units).as_deref(), Some("c:\\app\\äpfel.exe"));
    // An unpaired surrogate becomes the replacement character.
    assert_eq!(image_path(&[0x0041, 0xd800]).as_deref(), Some("a\u{fffd}"));
    assert_eq!(image_path(&[]), None);
    // Each surrogate without a partner is replaced; a pair is one character.
    let units = [0xd834, 0xdd1e, 0x6d, 0xdd1e, 0xd834, 0xd834, 0xdd1e, 0xd834, 0x69, 0xd834];
    assert_eq!(
        image_path(&units).as_deref(),
        Some("\u{1d11e}m\u{fffd}\u{fffd}\u{1d11e}\u{fffd}i\u{fffd}")
    );
    let edges = [0xd7ff, 0xe000, 0xffff, 0xd800, 0xdc00, 0xdbff, 0xdfff, 0xdc00, 0xdfff];
    assert_eq!(
        image_path(&edges).as_deref(),
        Some("\u{d7ff}\u{e000}\u{ffff}\u{10000}\u{10ffff}\u{fffd}\u{fffd}")
    );
}

fn dword(bytes: &mut Vec<u8>, n: u32) {
    bytes.extend_from_slice(&n.to_le_bytes());
}

#[test]
fn tcp_tables_are_decoded() {
    let mut bytes = Vec::new();
    dword(&mut bytes, 1);
    dword(&mut bytes, 5); // state
    bytes.extend_from_slice(&[192, 168, 1, 10]);
    bytes.extend_from_slice(&[0xc3, 0x50, 0, 0]);
    bytes.extend_from_slice(&[93, 184, 216, 34]);
    bytes.extend_from_slice(&[0x01, 0xbb, 0, 0]);
    dword(&mut bytes, 4242);
    let rows = read_tcp_table(AF_INET, 0, &bytes).unwrap();
    let expected = SocketRow {
        local: SocketAddr::new(IpAddr::v4(192, 168, 1, 10), 50000),
        remote: Some(SocketAddr::new(IpAddr::v4(93, 184, 216, 34), 443)),
        owning_pid: 4242,
    };
    assert_eq!(rows, vec![expected]);
}

#[test]
fn udp6_tables_are_decoded() {
    let mut bytes = Vec::new();
    dword(&mut bytes, 2);
    for pid in [7, 8] {
        let mut ip = [0u8; 16];
        ip[15] = 1;
        bytes.extend_from_slice(&ip);
        dword(&mut bytes, 0); // scope
        bytes.extend_from_slice(&[0x14, 0xe9, 0, 0]);
        dword(&mut bytes, pid);
    }
    let rows = read_udp_table(AF_INET6, 0, &bytes).unwrap();
    assert_eq!(rows.len(), 2);
    assert_eq!(rows[1].local, SocketAddr::new(IpAddr::V6(1), 5353));
    assert_eq!(rows[1].remote, None);
    assert_eq!((rows[0].owning_pid, rows[1].owning_pid), (7, 8));
}

#[test]
fn failed_and_short_tables_are_errors() {
    assert_eq!(read_tcp_table(AF_INET, 0, &[]), Ok(Vec::new()));
    assert_eq!(read_tcp_table(AF_INET, 87, &[1, 0, 0, 0]), Err(TableError::Status(87)));
    assert_eq!(read_udp_table(AF_INET, 0, &[1, 0, 0, 0, 9]), Err(TableError::Truncated));
    assert_eq!(read_udp_table(AF_INET, 0, &[1, 0]), Err(TableError::Truncated));
    assert_eq!(read_udp_table(AF_INET, 0, &[0, 0, 0, 0]), Ok(Vec::new()));
}

fn row(port: u16, pid: u32) -> SocketRow {
    let local = SocketAddr::new(IpAddr::v4(0, 0, 0, 0), port);
    SocketRow { local, remote: None, owning_pid: pid }
}

#[test]
fn a_sweep_combines_the_tables_and_lists_new_pids_once() {
    let known: HashSet<u32> = HashSet::from([10]);
    let tcp4 = Ok(vec![row(1, 30), row(2, 10)]);
    let tcp6 = Ok(vec![row(3, 20)]);
    let udp4 = Ok(vec![row(4, 30)]);
    let udp6 = Ok(vec![row(5, 20)]);
    let sweep = Sweep::gather(&known, &tcp4, &tcp6, &udp4, &udp6);
    assert!(sweep.complete);
    assert_eq!(sweep.unresolved, vec![30, 20]);
    let protocols: Vec<u8> = sweep.rows.iter().map(|r| r.protocol).collect();
    assert_eq!(
        protocols,
        vec![IPPROTO_TCP, IPPROTO_TCP, IPPROTO_TCP, IPPROTO_UDP, IPPROTO_UDP]
    );
    let snap = sweep.finish(vec![Some("c:\\a.exe".to_string()), None]);
    assert_eq!(
        snap.resolved,
        vec![(30, Some("c:\\a.exe".to_string())), (20, Some("pid:20".to_string()))]
    );
    assert_eq!(snap.rows.len(), 5);
}

#[test]
fn a_sweep_with_a_failed_table_is_not_complete() {
    let ok = Ok(vec![row(1, 30)]);
    let failed = Err(TableError::Status(5));
    let sweep = Sweep::gather(&HashSet::new(), &failed, &ok, &ok, &ok);
    assert!(!sweep.complete);
    assert_eq!(sweep.rows.len(), 3);
}

#[test]
fn processes_without_an_image_have_keys_of_their_own() {
    let pids = [1, 2, 3, 5, 10, 12, 40, 100, 1000, 1001, u32::MAX];
    let keys: HashSet<String> =
        pids.iter().map(|&pid| resolve_pid_path(pid, None).unwrap()).collect();
    assert_eq!(keys.len(), pids.len());
    assert!(keys.iter().all(|key| !key.is_empty()));
    assert!(keys.contains("pid:4294967295"));
}
