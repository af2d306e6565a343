use throttle::addr::{IpAddr, SocketAddr};
use throttle::backend::engine::{
    count_released, count_sent, drain, handle_packet, l4_ports, parse_packet, receive, report_due,
    Dir, EngineStats, Packet, Received, Sample, ShapedBucket, Task, TokenBucket, Verdict,
    MAX_QUEUE_BYTES, MAX_QUEUE_PKTS, UNATTRIBUTED_SAMPLES,
};
use throttle::backend::flows::FlowTable;
use throttle::backend::sockets::IPPROTO_TCP;
use throttle::backend::synthetic::UNKNOWN_EXE;
use throttle::table::Table;
use throttle::types::Rule;

const SECOND: u64 = 1_000_000_000;
const APP: &str = "c:\\app\\thing.exe";

fn local() -> SocketAddr {
    SocketAddr::new(IpAddr::v4(10, 0, 0, 1), 50000)
}

fn remote() -> SocketAddr {
    SocketAddr::new(IpAddr::v4(93, 184, 216, 34), 443)
}

/// A table that knows one connection of one program.
fn one_flow() -> FlowTable {
    let mut flows = FlowTable::new();
    flows.insert_flow(IPPROTO_TCP, local(), remote(), 1234, Some(APP.to_string()));
    flows
}

/// An IPv4 TCP packet of `len` bytes between the two.
fn packet(outbound: bool, len: usize) -> Packet<u32> {
    let mut data = vec![0u8; len];
    data[0] = 0x45;
    data[9] = 6;
    let (src, dst) = ([10, 0, 0, 1], [93, 184, 216, 34]);
    let (sp, dp) = (50000u16.to_be_bytes(), 443u16.to_be_bytes());
    if outbound {
        data[12..16].copy_from_slice(&src);
        data[16..20].copy_from_slice(&dst);
        data[20..22].copy_from_slice(&sp);
        data[22..24].copy_from_slice(&dp);
    } else {
        data[12..16].copy_from_slice(&dst);
        data[16..20].copy_from_slice(&src);
        data[20..22].copy_from_slice(&dp);
        data[22..24].copy_from_slice(&sp);
    }
    Packet { address: 7, outbound, data }
}

fn rules(rule: Rule) -> Table<String, Rule> {
    let mut rules = Table::new();
    rules.insert(rule.exe_path.clone(), rule);
    rules
}

fn limits(down: Option<u64>, up: Option<u64>, blocked: bool) -> Table<String, Rule> {
    rules(Rule { exe_path: APP.to_string(), down_limit: down, up_limit: up, blocked })
}

type Buckets = Table<(String, Dir), ShapedBucket<u32>>;

#[test]
fn full_bucket_allows_burst_up_to_capacity() {
    let t0 = 5 * SECOND;
    let mut b = TokenBucket::new_at(1000, t0);
    // Starts full: can spend the whole capacity at once.
    assert!(b.try_take(1000));
    // Now empty: even one byte fails.
    assert!(!b.try_take(1));
}

#[test]
fn refill_is_proportional_to_elapsed_time() {
    let t0 = 5 * SECOND;
    let mut b = TokenBucket::new_at(1000, t0);
    assert!(b.try_take(1000)); // drain
    // After 0.5s, ~500 tokens are back.
    b.refill(t0 + SECOND / 2);
    assert!(b.try_take(500));
    assert!(!b.try_take(1));
}

#[test]
fn refill_never_exceeds_capacity() {
    let t0 = 5 * SECOND;
    let mut b = TokenBucket::new_at(1000, t0);
    assert!(b.try_take(1000));
    // Idle for 10s, but capacity caps the burst at 1000.
    b.refill(t0 + 10 * SECOND);
    assert!(b.try_take(1000));
    assert!(!b.try_take(1));
}

#[test]
fn oversized_packet_passes_only_when_full() {
    let t0 = 5 * SECOND;
    let mut b = TokenBucket::new_at(500, t0); // capacity 500
    // A 1500-byte packet is larger than capacity: passes while full.
    assert!(b.try_take(1500));
    // Bucket now drained; the next oversized packet must wait.
    assert!(!b.try_take(1500));
    // After a full second it's full again and passes.
    b.refill(t0 + SECOND);
    assert!(b.try_take(1500));
}

#[test]
fn set_rate_clamps_tokens_to_new_capacity() {
    let t0 = 5 * SECOND;
    let mut b = TokenBucket::new_at(1000, t0); // full: 1000 tokens
    b.set_rate(400); // capacity shrinks; tokens clamp to 400
    assert!(b.try_take(400));
    assert!(!b.try_take(1));
}

#[test]
fn parses_ipv4_tcp_5tuple() {
    // Minimal IPv4 header (IHL=5 => 20 bytes), protocol=TCP(6), then ports.
    let mut pkt = vec![0u8; 24];
    pkt[0] = 0x45; // version 4, IHL 5
    pkt[9] = 6; // TCP
    pkt[12..16].copy_from_slice(&[10, 0, 0, 1]); // src
    pkt[16..20].copy_from_slice(&[93, 184, 216, 34]); // dst
    pkt[20..22].copy_from_slice(&50000u16.to_be_bytes()); // src port
    pkt[22..24].copy_from_slice(&443u16.to_be_bytes()); // dst port

    let (proto, src, dst) = parse_packet(&pkt).unwrap();
    assert_eq!(proto, 6);
    assert_eq!(src, SocketAddr::new(IpAddr::v4(10, 0, 0, 1), 50000));
    assert_eq!(dst, SocketAddr::new(IpAddr::v4(93, 184, 216, 34), 443));
}

#[test]
fn rejects_truncated_and_non_ip() {
    assert!(parse_packet(&[]).is_none());
    assert!(parse_packet(&[0x45, 0x00]).is_none()); // too short for v4
    assert!(parse_packet(&[0x00; 20]).is_none()); // version 0
}

#[test]
fn parses_ipv6_udp_5tuple() {
    let mut pkt = vec![0u8; 48];
    pkt[0] = 0x60;
    pkt[6] = 17;
    pkt[8] = 0xfe;
    pkt[9] = 0x80;
    pkt[23] = 1;
    pkt[24] = 0xff;
    pkt[25] = 2;
    pkt[39] = 0xfb;
    pkt[40..42].copy_from_slice(&5353u16.to_be_bytes());
    pkt[42..44].copy_from_slice(&53u16.to_be_bytes());
    let (proto, src, dst) = parse_packet(&pkt).unwrap();
    assert_eq!(proto, 17);
    assert_eq!(src, SocketAddr::new(IpAddr::V6(0xfe80_0000_0000_0000_0000_0000_0000_0001), 5353));
    assert_eq!(dst, SocketAddr::new(IpAddr::V6(0xff02_0000_0000_0000_0000_0000_0000_00fb), 53));
    assert!(parse_packet(&pkt[..39]).is_none());
}

#[test]
fn ipv4_options_are_skipped_and_bad_header_lengths_rejected() {
    let mut pkt = vec![0u8; 28];
    pkt[0] = 0x46; // 24-byte header
    pkt[9] = 17;
    pkt[24..26].copy_from_slice(&1000u16.to_be_bytes());
    pkt[26..28].copy_from_slice(&2000u16.to_be_bytes());
    let (_, src, dst) = parse_packet(&pkt).unwrap();
    assert_eq!((src.port(), dst.port()), (1000, 2000));
    pkt[0] = 0x44; // 16-byte header: impossible
    assert!(parse_packet(&pkt).is_none());
    pkt[0] = 0x4f; // 60-byte header: more than there is
    assert!(parse_packet(&pkt).is_none());
}

#[test]
fn ports_only_come_from_tcp_and_udp() {
    let l4 = [0x01, 0xbb, 0xc3, 0x50];
    assert_eq!(l4_ports(6, &l4), (443, 50000));
    assert_eq!(l4_ports(17, &l4), (443, 50000));
    assert_eq!(l4_ports(1, &l4), (0, 0));
    assert_eq!(l4_ports(6, &l4[..3]), (0, 0));
}

#[test]
fn time_does_not_run_backwards() {
    let mut b = TokenBucket::new_at(1000, 5 * SECOND);
    assert!(b.try_take(1000));
    b.refill(4 * SECOND);
    assert!(!b.try_take(1));
    b.refill(5 * SECOND + SECOND / 1000);
    assert!(b.try_take(1));
}

#[test]
fn fractions_of_a_byte_are_kept() {
    let mut b = TokenBucket::new_at(3, 0);
    assert!(b.try_take(3));
    // A third of a second is worth exactly a byte, in three unequal parts.
    b.refill(100_000_000);
    b.refill(200_000_000);
    b.refill(333_333_333);
    assert!(!b.try_take(1));
    b.refill(333_333_334);
    assert!(b.try_take(1));
}

#[test]
fn throughput_stays_within_the_limit() {
    let mut b = TokenBucket::new_at(10_000, 0);
    let mut passed = 0;
    for ms in 0..5_000u64 {
        b.refill(ms * 1_000_000);
        while b.try_take(100) {
            passed += 100;
        }
    }
    // Five seconds, and one second's worth of burst.
    assert!(passed <= 60_000);
    assert!(passed >= 59_000);
}

#[test]
fn a_packet_without_a_rule_passes() {
    let flows = one_flow();
    let rules = Table::new();
    let mut buckets: Buckets = Table::new();
    let mut stats = EngineStats::default();
    let (exe, verdict) =
        handle_packet(&flows, &rules, &mut buckets, packet(true, 100), 0, &mut stats);
    assert_eq!(exe.as_deref(), Some(APP));
    assert!(matches!(verdict, Verdict::Pass(p) if p.data.len() == 100 && p.address == 7));
    assert_eq!((stats.unattributed, stats.queued, stats.dropped), (0, 0, 0));
    assert_eq!(buckets.len(), 0);
}

#[test]
fn unattributed_packets_pass_and_are_sampled_once() {
    let flows = FlowTable::new();
    let mut rules: Table<String, Rule> = Table::new();
    let block = Rule { exe_path: UNKNOWN_EXE.to_string(), blocked: true, ..Rule::default() };
    rules.insert(UNKNOWN_EXE.to_string(), block);
    let mut buckets: Buckets = Table::new();
    let mut stats = EngineStats::default();
    for _ in 0..3 {
        let (exe, verdict) =
            handle_packet(&flows, &rules, &mut buckets, packet(true, 60), 0, &mut stats);
        assert!(exe.is_none());
        assert!(matches!(verdict, Verdict::Pass(_)));
    }
    assert_eq!(stats.unattributed, 3);
    let expected =
        Sample::Parsed { protocol: 6, src: local(), dst: remote(), outbound: true, len: 60 };
    assert_eq!(stats.unattributed_samples, vec![expected]);
    for len in 1..20 {
        let junk = Packet { address: 0, outbound: false, data: vec![0u8; len] };
        let _ = handle_packet(&flows, &rules, &mut buckets, junk, 0, &mut stats);
    }
    assert_eq!(stats.unattributed, 22);
    assert_eq!(stats.unattributed_samples.len(), UNATTRIBUTED_SAMPLES);
    assert_eq!(stats.unattributed_samples[1], Sample::Unparsed { len: 1, outbound: false });
}

#[test]
fn a_blocked_process_is_dropped_both_ways() {
    let flows = one_flow();
    let rules = limits(None, None, true);
    let mut buckets: Buckets = Table::new();
    let mut stats = EngineStats::default();
    for outbound in [true, false] {
        let p = packet(outbound, 100);
        let (_, verdict) = handle_packet(&flows, &rules, &mut buckets, p, 0, &mut stats);
        assert!(matches!(verdict, Verdict::Drop));
    }
    assert_eq!(stats.dropped, 2);
}

#[test]
fn a_zero_limit_blocks_one_direction() {
    let flows = one_flow();
    let rules = limits(Some(0), None, false);
    let mut buckets: Buckets = Table::new();
    let mut stats = EngineStats::default();
    let (_, down) = handle_packet(&flows, &rules, &mut buckets, packet(false, 99), 0, &mut stats);
    let (_, up) = handle_packet(&flows, &rules, &mut buckets, packet(true, 99), 0, &mut stats);
    assert!(matches!(down, Verdict::Drop));
    assert!(matches!(up, Verdict::Pass(_)));
}

#[test]
fn a_limit_holds_packets_until_tokens_return() {
    let flows = one_flow();
    let rules = limits(Some(1000), None, false);
    let mut buckets: Buckets = Table::new();
    let mut stats = EngineStats::default();
    let mut verdicts = Vec::new();
    for len in [600, 500, 40] {
        let p = packet(false, len);
        verdicts.push(handle_packet(&flows, &rules, &mut buckets, p, 0, &mut stats).1);
    }
    assert!(matches!(verdicts[0], Verdict::Pass(_)));
    assert!(matches!(verdicts[1], Verdict::Hold));
    // A later packet that still fits is not held back.
    assert!(matches!(verdicts[2], Verdict::Pass(_)));
    assert_eq!(stats.queued, 1);
    // 360 of 1000 tokens are left: 140 ms bring the other 140.
    assert!(drain(&mut buckets, 139_000_000).is_empty());
    let released = drain(&mut buckets, 140_000_000);
    assert_eq!(released.len(), 1);
    assert_eq!(released[0].exe, APP);
    assert_eq!(released[0].dir, Dir::Down);
    assert_eq!(released[0].packet.data.len(), 500);
    assert!(drain(&mut buckets, 10 * SECOND).is_empty());
}

#[test]
fn held_packets_leave_in_order() {
    let flows = one_flow();
    let rules = limits(None, Some(100), false);
    let mut buckets: Buckets = Table::new();
    let mut stats = EngineStats::default();
    for len in [100, 60, 50, 40] {
        let p = packet(true, len);
        let _ = handle_packet(&flows, &rules, &mut buckets, p, 0, &mut stats);
    }
    let first: Vec<usize> =
        drain(&mut buckets, SECOND).iter().map(|r| r.packet.data.len()).collect();
    assert_eq!(first, vec![60]);
    let rest: Vec<usize> =
        drain(&mut buckets, 2 * SECOND).iter().map(|r| r.packet.data.len()).collect();
    assert_eq!(rest, vec![50, 40]);
}

#[test]
fn a_full_queue_drops() {
    let flows = one_flow();
    let rules = limits(Some(1), None, false);
    let mut buckets: Buckets = Table::new();
    let mut stats = EngineStats::default();
    for _ in 0..MAX_QUEUE_PKTS + 3 {
        let p = packet(false, 100);
        let _ = handle_packet(&flows, &rules, &mut buckets, p, 0, &mut stats);
    }
    // The first oversized packet passed while the bucket was full.
    assert_eq!(stats.queued, MAX_QUEUE_PKTS as u64);
    assert_eq!(stats.dropped, 2);
}

#[test]
fn a_queue_is_also_capped_in_bytes() {
    let flows = one_flow();
    let rules = limits(Some(1), None, false);
    let mut buckets: Buckets = Table::new();
    let mut stats = EngineStats::default();
    for _ in 0..1 + MAX_QUEUE_BYTES / 65_535 + 5 {
        let p = packet(false, 65_535);
        let _ = handle_packet(&flows, &rules, &mut buckets, p, 0, &mut stats);
    }
    assert_eq!(stats.queued, 16);
    assert_eq!(stats.dropped, 5);
}

#[test]
fn a_changed_limit_counts_at_once() {
    let flows = one_flow();
    let mut buckets: Buckets = Table::new();
    let mut stats = EngineStats::default();
    let wide = limits(Some(1_000), None, false);
    let _ = handle_packet(&flows, &wide, &mut buckets, packet(false, 30), 0, &mut stats);
    let narrow = limits(Some(50), None, false);
    let (_, verdict) =
        handle_packet(&flows, &narrow, &mut buckets, packet(false, 50), 0, &mut stats);
    assert!(matches!(verdict, Verdict::Pass(_)));
    let (_, verdict) =
        handle_packet(&flows, &narrow, &mut buckets, packet(false, 40), 0, &mut stats);
    assert!(matches!(verdict, Verdict::Hold));
}

#[test]
fn only_injected_bytes_are_counted() {
    let mut flows = one_flow();
    let mut stats = EngineStats::default();
    let exe = Some(APP.to_string());
    assert!(!count_sent(&mut flows, &mut stats, &exe, false, 700, true));
    assert!(!count_sent(&mut flows, &mut stats, &exe, true, 50, true));
    assert!(!count_sent(&mut flows, &mut stats, &None, true, 11, true));
    // A failure counts no bytes; the first five are worth a warning.
    for n in 1..=1000 {
        let warn = count_sent(&mut flows, &mut stats, &exe, true, 9, false);
        assert_eq!(warn, n <= 5 || n % 500 == 0);
    }
    assert_eq!((stats.sent, stats.send_err), (3, 1000));
    let (report, down, up) = flows.snapshot();
    let app = report.get(APP).unwrap();
    assert_eq!((app.down_rate, app.up_rate), (700, 50));
    assert_eq!(report.get(UNKNOWN_EXE).unwrap().up_rate, 11);
    assert_eq!((down, up), (700, 61));
}

#[test]
fn released_bytes_are_counted_if_they_went_out() {
    let mut flows = one_flow();
    let rules = limits(None, Some(100), false);
    let mut buckets: Buckets = Table::new();
    let mut stats = EngineStats::default();
    for len in [100, 70, 80] {
        let p = packet(true, len);
        let _ = handle_packet(&flows, &rules, &mut buckets, p, 0, &mut stats);
    }
    for (i, release) in drain(&mut buckets, SECOND).iter().enumerate() {
        count_released(&mut flows, release, i == 0);
    }
    for release in drain(&mut buckets, 3 * SECOND).iter() {
        count_released(&mut flows, release, false);
    }
    let (report, _, up) = flows.snapshot();
    assert_eq!(report.get(APP).unwrap().up_rate, 70);
    assert_eq!(up, 70);
}

#[test]
fn fresh_diagnostics_have_room() {
    let mut stats = EngineStats::default();
    assert!(stats.has_room());
    stats.sent = u64::MAX;
    assert!(!stats.has_room());
}

#[test]
fn a_limit_holds_for_what_is_handled_and_drained() {
    let flows = one_flow();
    let rules = limits(Some(20_000), None, false);
    let mut buckets: Buckets = Table::new();
    let mut stats = EngineStats::default();
    let mut out = 0;
    for ms in 0..4_000u64 {
        let now = ms * 1_000_000;
        let p = packet(false, 100 + (ms % 7) as usize * 50);
        if let Verdict::Pass(p) =
            handle_packet(&flows, &rules, &mut buckets, p, now, &mut stats).1
        {
            out += p.data.len();
        }
        if ms % 5 == 0 {
            out += drain(&mut buckets, now).iter().map(|r| r.packet.data.len()).sum::<usize>();
        }
    }
    // Four seconds, and one second's worth of burst.
    assert!(out <= 100_000);
    assert!(out >= 98_000);
}

#[test]
fn a_removed_rule_lets_traffic_pass() {
    let flows = one_flow();
    let mut rules = limits(None, None, true);
    let mut buckets: Buckets = Table::new();
    let mut stats = EngineStats::default();
    rules.remove(APP);
    let (_, verdict) =
        handle_packet(&flows, &rules, &mut buckets, packet(true, 64), 0, &mut stats);
    assert!(matches!(verdict, Verdict::Pass(_)));
    assert_eq!(stats.dropped, 0);
}

#[test]
fn directions_have_buckets_of_their_own() {
    let flows = one_flow();
    let rules = limits(Some(100), Some(100), false);
    let mut buckets: Buckets = Table::new();
    let mut stats = EngineStats::default();
    for outbound in [true, false] {
        let p = packet(outbound, 100);
        let (_, verdict) = handle_packet(&flows, &rules, &mut buckets, p, 0, &mut stats);
        assert!(matches!(verdict, Verdict::Pass(_)));
    }
    assert_eq!(buckets.len(), 2);
}

#[test]
fn received_packets_are_counted_and_sent_on() {
    let flows = one_flow();
    let rules = limits(None, Some(0), false);
    let mut buckets: Buckets = Table::new();
    let mut stats = EngineStats::default();
    let mut step = |received| receive(&flows, &rules, &mut buckets, received, 0, &mut stats);
    let task = step(Received::Packet { packet: packet(false, 64), checksums: false });
    assert!(matches!(task, Task::Send { exe, packet }
        if exe.as_deref() == Some(APP) && packet.data.len() == 64));
    let task = step(Received::Packet { packet: packet(true, 64), checksums: true });
    assert!(matches!(task, Task::Next));
    assert!(matches!(step(Received::Failed), Task::Retry));
    assert!(matches!(step(Received::NoData), Task::Stop));
    assert_eq!((stats.recv_ok, stats.recv_err, stats.calc_err, stats.dropped), (2, 1, 1, 1));
    assert_eq!(
        stats.report(),
        "engine 5s: recv_ok=2 recv_err=1 sent=0 send_err=0 calc_err=1 unattributed=0 queued=0 \
         dropped=1"
    );
}

#[test]
fn reports_come_every_five_seconds() {
    assert!(!report_due(SECOND, 5 * SECOND));
    assert!(report_due(SECOND, 6 * SECOND));
    assert!(!report_due(SECOND, 0));
}
