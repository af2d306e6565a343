//! What attribution and shaping do to a packet, in terms of what the table, the
//! rules and the buckets hold.

use crate::addr::SocketAddr;
use crate::backend::engine::{
    all_released, attributed, bytes_in, counted, five_tuple, handling, lemma_payable, level_after,
    payable, sample_of, BucketMap, Dir, Level, Packet, Sample, Shaped, StatsLog, Verdict,
};
use crate::backend::flows::{FlowKey, FlowsView, Owner, PortKey};
use crate::text::decimal;
use crate::types::RuleView;
use vstd::prelude::*;

verus! {

/// The executable that owns a flow written with `local` first, if that is known.
pub open spec fn owner_of(
    flows: Map<FlowKey, Owner>,
    protocol: u8,
    local: SocketAddr,
    remote: SocketAddr,
) -> Option<Owner> {
    if flows.contains_key(FlowKey { protocol, local, remote }) {
        Some(flows[FlowKey { protocol, local, remote }])
    } else {
        None
    }
}

/// The executable that owns a local port, if that is known.
pub open spec fn port_owner_of(
    owners: Map<PortKey, Seq<char>>,
    protocol: u8,
    local: SocketAddr,
) -> Option<Seq<char>> {
    let key = PortKey { protocol, v6: local.ip is V6, port: local.port };
    if owners.contains_key(key) {
        Some(owners[key])
    } else {
        None
    }
}

/// The local end of an inbound packet is its destination, that of an outbound
/// one its source. Without a flow between the two ends, the owner of the local
/// end's port owns the packet, whatever the remote end is.
pub proof fn law_local_port_owns_the_packet<A>(
    flows: FlowsView,
    rules: Map<Seq<char>, RuleView>,
    buckets: BucketMap<A>,
    packet: Packet<A>,
    now: nat,
    log: StatsLog,
    protocol: u8,
    src: SocketAddr,
    dst: SocketAddr,
)
    requires
        five_tuple(packet.data@) == Some((protocol, src, dst)),
        owner_of(flows.flows, protocol, src, dst) is None,
        owner_of(flows.flows, protocol, dst, src) is None,
    ensures
        ({
            let exe = handling(flows, rules, buckets, packet, now, log).exe;
            &&& !packet.outbound ==> exe == port_owner_of(flows.port_owners, protocol, dst)
            &&& packet.outbound ==> exe == port_owner_of(flows.port_owners, protocol, src)
        }),
{
}

/// A flow between the two ends owns the packet if its process is known: the flow
/// as seen from the local end first, then as seen from the other. A flow of an
/// ignored process leaves the packet to the port's owner.
pub proof fn law_flow_owns_the_packet<A>(
    flows: FlowsView,
    rules: Map<Seq<char>, RuleView>,
    buckets: BucketMap<A>,
    packet: Packet<A>,
    now: nat,
    log: StatsLog,
    protocol: u8,
    src: SocketAddr,
    dst: SocketAddr,
    owner: Owner,
)
    requires
        five_tuple(packet.data@) == Some((protocol, src, dst)),
        packet.outbound ==> owner_of(flows.flows, protocol, src, dst) == Some(owner) || (owner_of(
            flows.flows,
            protocol,
            src,
            dst,
        ) is None && owner_of(flows.flows, protocol, dst, src) == Some(owner)),
        !packet.outbound ==> owner_of(flows.flows, protocol, dst, src) == Some(owner) || (owner_of(
            flows.flows,
            protocol,
            dst,
            src,
        ) is None && owner_of(flows.flows, protocol, src, dst) == Some(owner)),
    ensures
        ({
            let exe = handling(flows, rules, buckets, packet, now, log).exe;
            &&& owner.exe_path.len() > 0 ==> exe == Some(owner.exe_path)
            &&& owner.exe_path.len() == 0 && packet.outbound ==> exe == port_owner_of(
                flows.port_owners,
                protocol,
                src,
            )
            &&& owner.exe_path.len() == 0 && !packet.outbound ==> exe == port_owner_of(
                flows.port_owners,
                protocol,
                dst,
            )
        }),
{
}

/// What goes out and what comes back between the same ends belongs to the same
/// executable.
pub proof fn law_both_directions_belong_together(
    flows: FlowsView,
    sent: Seq<u8>,
    answer: Seq<u8>,
    protocol: u8,
    local: SocketAddr,
    remote: SocketAddr,
)
    requires
        five_tuple(sent) == Some((protocol, local, remote)),
        five_tuple(answer) == Some((protocol, remote, local)),
    ensures
        attributed(flows, sent, true) == attributed(flows, answer, false),
{
}

/// What is no IP packet belongs to nobody.
pub proof fn law_unreadable_packet_has_no_owner(flows: FlowsView, data: Seq<u8>, outbound: bool)
    requires
        five_tuple(data) is None,
    ensures
        attributed(flows, data, outbound) is None,
{
}

/// A bucket takes over the rate it is given, lower or higher than before, keeps
/// its clock, and holds no more than one second's worth of it; what fits stays.
pub proof fn law_bucket_takes_the_rate(level: Level, rate: nat)
    ensures
        level.at_rate(rate).rate == rate,
        level.at_rate(rate).last == level.last,
        level.at_rate(rate).capacity() == rate * 1_000_000_000,
        level.at_rate(rate).tokens <= rate * 1_000_000_000,
        level.at_rate(rate).tokens <= level.tokens,
        level.tokens <= rate * 1_000_000_000 ==> level.at_rate(rate).tokens == level.tokens,
        level.tokens > rate * 1_000_000_000 ==> level.at_rate(rate).tokens == rate
            * 1_000_000_000,
{
}

/// Tokens flow in at the rate for the time that has passed, up to one second's
/// worth. A clock that stands still or runs back changes nothing.
pub proof fn law_tokens_flow_in(level: Level, now: nat)
    ensures
        level.refilled(now).rate == level.rate,
        now <= level.last ==> level.refilled(now) == level,
        now > level.last ==> {
            let inflow = (now - level.last) * level.rate;
            let after = level.refilled(now);
            &&& after.last == now
            &&& after.tokens <= level.rate * 1_000_000_000
            &&& level.tokens + inflow <= level.rate * 1_000_000_000 ==> after.tokens == level.tokens
                + inflow
            &&& level.tokens + inflow >= level.rate * 1_000_000_000 ==> after.tokens == level.rate
                * 1_000_000_000
        },
{
}

/// It does not matter how often a bucket is refilled on the way.
pub proof fn law_refills_add_up(level: Level, a: nat, b: nat)
    requires
        level.wf(),
        a <= b,
    ensures
        level.refilled(a).refilled(b) == level.refilled(b),
{
    if level.last < a {
        assert((a - level.last) * level.rate + (b - a) * level.rate == (b - level.last)
            * level.rate) by (nonlinear_arith);
        assert(0 <= (b - a) * level.rate) by (nonlinear_arith)
            requires
                a <= b,
        ;
    }
}

/// A packet costs its bytes and passes if there are tokens for all of them. One
/// that is larger than a whole second's worth costs a full bucket.
pub proof fn law_packets_cost_their_bytes(level: Level, n: nat)
    ensures
        level.spent(n).rate == level.rate,
        level.spent(n).last == level.last,
        n <= level.rate ==> {
            &&& level.affords(n) <==> level.tokens >= n * 1_000_000_000
            &&& level.affords(n) ==> level.spent(n).tokens == level.tokens - n * 1_000_000_000
        },
        n > level.rate ==> {
            &&& level.affords(n) <==> level.tokens >= level.rate * 1_000_000_000
            &&& level.affords(n) ==> level.spent(n).tokens == level.tokens - level.rate
                * 1_000_000_000
        },
        Level::full(level.rate, level.last).tokens == level.rate * 1_000_000_000,
        Level::full(level.rate, level.last).rate == level.rate,
        Level::full(level.rate, level.last).last == level.last,
{
}

/// The limit of a rule in one direction.
pub open spec fn limit_for(rule: RuleView, outbound: bool) -> Option<u64> {
    if outbound {
        rule.up_limit
    } else {
        rule.down_limit
    }
}

/// What passes untouched: traffic of nobody, of the row for unattributed traffic,
/// of a process without a rule, and in a direction without a limit.
pub proof fn law_unlimited_traffic_passes<A>(
    flows: FlowsView,
    rules: Map<Seq<char>, RuleView>,
    buckets: BucketMap<A>,
    packet: Packet<A>,
    now: nat,
    log: StatsLog,
)
    requires
        handling(flows, rules, buckets, packet, now, log).exe matches Some(exe) ==> {
            ||| exe == "<unknown>"@
            ||| !rules.contains_key(exe)
            ||| !rules[exe].blocked && limit_for(rules[exe], packet.outbound) is None
        },
    ensures
        ({
            let handled = handling(flows, rules, buckets, packet, now, log);
            handled.verdict == Verdict::Pass(packet) && handled.buckets == buckets
        }),
{
}

/// What is dropped at once: traffic of a blocked process, and in a direction whose
/// limit is zero.
pub proof fn law_blocked_traffic_is_dropped<A>(
    flows: FlowsView,
    rules: Map<Seq<char>, RuleView>,
    buckets: BucketMap<A>,
    packet: Packet<A>,
    now: nat,
    log: StatsLog,
    exe: Seq<char>,
)
    requires
        handling(flows, rules, buckets, packet, now, log).exe == Some(exe),
        exe != "<unknown>"@,
        rules.contains_key(exe),
        rules[exe].blocked || limit_for(rules[exe], packet.outbound) == Some(0u64),
    ensures
        ({
            let handled = handling(flows, rules, buckets, packet, now, log);
            &&& handled.verdict is Drop
            &&& handled.buckets == buckets
            &&& handled.log.dropped == log.dropped + 1
        }),
{
}

/// What becomes of a packet in a direction with a limit. Its bucket runs at the
/// limit from then on. The packet passes if it can be paid for by then; else it
/// goes to the end of the queue if that has room, for 256 packets and a mebibyte
/// in all; else it is dropped.
pub proof fn law_limited_traffic_is_shaped<A>(
    flows: FlowsView,
    rules: Map<Seq<char>, RuleView>,
    buckets: BucketMap<A>,
    packet: Packet<A>,
    now: nat,
    log: StatsLog,
    exe: Seq<char>,
    rate: u64,
)
    requires
        handling(flows, rules, buckets, packet, now, log).exe == Some(exe),
        exe != "<unknown>"@,
        rules.contains_key(exe),
        !rules[exe].blocked,
        limit_for(rules[exe], packet.outbound) == Some(rate),
        rate > 0,
    ensures
        ({
            let key = (
                exe,
                if packet.outbound {
                    Dir::Up
                } else {
                    Dir::Down
                },
            );
            let handled = handling(flows, rules, buckets, packet, now, log);
            let before = if buckets.contains_key(key) {
                buckets[key]
            } else {
                Shaped::<A>::fresh(rate as nat, now)
            };
            let filled = before.level.at_rate(rate as nat).refilled(now);
            let after = handled.buckets[key];
            let bytes = packet.data@.len();
            let room = before.queue.len() < 256 && before.queued_bytes + bytes <= 1_048_576;
            &&& handled.buckets.dom() == buckets.dom().insert(key)
            &&& after.level.rate == rate
            &&& filled.affords(bytes) ==> {
                &&& handled.verdict == Verdict::Pass(packet)
                &&& after.level == filled.spent(bytes)
                &&& after.queue == before.queue
                &&& after.queued_bytes == before.queued_bytes
            }
            &&& !filled.affords(bytes) ==> after.level == filled
            &&& !filled.affords(bytes) && room ==> {
                &&& handled.verdict is Hold
                &&& after.queue == before.queue.push(packet)
                &&& after.queued_bytes == before.queued_bytes + bytes
            }
            &&& !filled.affords(bytes) && !room ==> {
                &&& handled.verdict is Drop
                &&& after.queue == before.queue
                &&& after.queued_bytes == before.queued_bytes
            }
        }),
{
    let key = (exe, packet.dir());
    let handled = handling(flows, rules, buckets, packet, now, log);
    assert(handled.buckets.dom() =~= buckets.dom().insert(key));
}

/// The diagnostics count what became of the packet, and nothing else.
pub proof fn law_diagnostics_follow_the_verdict<A>(
    flows: FlowsView,
    rules: Map<Seq<char>, RuleView>,
    buckets: BucketMap<A>,
    packet: Packet<A>,
    now: nat,
    log: StatsLog,
)
    ensures
        ({
            let handled = handling(flows, rules, buckets, packet, now, log);
            let after = handled.log;
            &&& after.unattributed == log.unattributed + if handled.exe is None {
                1nat
            } else {
                0nat
            }
            &&& after.queued == log.queued + if handled.verdict is Hold {
                1nat
            } else {
                0nat
            }
            &&& after.dropped == log.dropped + if handled.verdict is Drop {
                1nat
            } else {
                0nat
            }
            &&& after.recv_ok == log.recv_ok
            &&& after.recv_err == log.recv_err
            &&& after.sent == log.sent
            &&& after.send_err == log.send_err
            &&& after.calc_err == log.calc_err
            &&& handled.exe is Some ==> after.samples == log.samples
            &&& handled.exe is None && log.samples.len() < 5 ==> after.samples.contains(
                sample_of(packet),
            )
            &&& after.samples == log.samples || (log.samples.len() < 5 && !log.samples.contains(
                sample_of(packet),
            ) && after.samples == log.samples.push(sample_of(packet)))
        }),
{
    let sample = sample_of(packet);
    if !log.samples.contains(sample) {
        let pushed = log.samples.push(sample);
        assert(pushed[log.samples.len() as int] == sample);
    }
}

/// A sample tells the ends, the direction and the size of its packet.
pub proof fn law_samples_describe_their_packets<A>(packet: Packet<A>)
    requires
        packet.data@.len() <= u64::MAX,
    ensures
        match five_tuple(packet.data@) {
            Some((protocol, src, dst)) => sample_of(packet) matches Sample::Parsed {
                protocol: p,
                src: s,
                dst: d,
                outbound,
                len,
            } && p == protocol && s == src && d == dst && outbound == packet.outbound && len
                == packet.data@.len(),
            None => sample_of(packet) matches Sample::Unparsed { len, outbound } && outbound
                == packet.outbound && len == packet.data@.len(),
        },
{
}

/// Injected bytes count for their executable, in their direction, and for nobody
/// else; those of nobody count for the row for unattributed traffic.
pub proof fn law_injected_bytes_are_counted(
    flows: FlowsView,
    exe: Option<Seq<char>>,
    dir: Dir,
    n: u64,
    other: Seq<char>,
)
    requires
        exe != Some(Seq::<char>::empty()),
    ensures
        ({
            let row = match exe {
                Some(exe) => exe,
                None => "<unknown>"@,
            };
            let after = counted(flows, exe, dir, n);
            let (was, is) = (flows.counter(row), after.counter(row));
            let (down, up): (u64, u64) = match dir {
                Dir::Down => (n, 0),
                Dir::Up => (0, n),
            };
            &&& is.down_accum == if was.down_accum + down > u64::MAX {
                u64::MAX as int
            } else {
                was.down_accum + down
            }
            &&& is.up_accum == if was.up_accum + up > u64::MAX {
                u64::MAX as int
            } else {
                was.up_accum + up
            }
            &&& is.down_total == was.down_total && is.up_total == was.up_total
            &&& other != row ==> after.counter(other) == flows.counter(other)
            &&& after.flows == flows.flows && after.port_owners == flows.port_owners
        }),
{
    reveal_strlit("<unknown>");
    if let Some(exe) = exe {
        if exe.len() == 0 {
            assert(exe =~= Seq::<char>::empty());
        }
    }
}

/// Draining goes as far as the tokens do: the bucket keeps its rate, and what is
/// then at the head of the queue cannot be paid for.
pub proof fn law_draining_goes_as_far_as_it_can<A>(bucket: Shaped<A>, now: nat)
    requires
        bucket.wf(),
    ensures
        ({
            let after = bucket.drained(now);
            let filled = bucket.level.refilled(now);
            &&& after.level.rate == bucket.level.rate
            &&& after.level.last == filled.last
            &&& after.queue.len() > 0 ==> !after.level.affords(after.queue[0].data@.len())
            &&& after.queued_bytes == bytes_in(after.queue)
            &&& after.queue == bucket.queue ==> after.level == filled
        }),
{
    let filled = bucket.level.refilled(now);
    lemma_payable(filled, bucket.queue);
    lemma_stops_at_the_first(filled, bucket.queue);
    lemma_rest_is_counted(bucket.queue, bucket.leaving(now) as int);
    if bucket.drained(now).queue == bucket.queue {
        assert(bucket.drained(now).queue.len() == bucket.queue.len() - bucket.leaving(now));
    }
}

proof fn lemma_stops_at_the_first<A>(level: Level, queue: Seq<Packet<A>>)
    requires
        level.wf(),
    ensures
        ({
            let n = payable(level, queue) as int;
            let after = level_after(level, queue);
            &&& n < queue.len() ==> !after.affords(queue[n].size())
            &&& after.last == level.last
            &&& n == 0 ==> after == level
        }),
    decreases queue.len(),
{
    if queue.len() > 0 && level.affords(queue[0].size()) {
        let rest = queue.drop_first();
        let spent = level.spent(queue[0].size());
        lemma_stops_at_the_first(spent, rest);
        let n = payable(spent, rest) as int;
        if n < rest.len() {
            assert(rest[n] == queue[n + 1]);
        }
    }
}

proof fn lemma_rest_is_counted<A>(queue: Seq<Packet<A>>, n: int)
    requires
        0 <= n <= queue.len(),
    ensures
        bytes_in(queue) == bytes_in(queue.take(n)) + bytes_in(queue.skip(n)),
    decreases queue.len(),
{
    if n == queue.len() {
        assert(queue.take(n) =~= queue);
        assert(queue.skip(n) =~= Seq::<Packet<A>>::empty());
    } else {
        lemma_rest_is_counted(queue.drop_last(), n);
        assert(queue.drop_last().take(n) =~= queue.take(n));
        assert(queue.skip(n).drop_last() =~= queue.drop_last().skip(n));
    }
}

/// A new bucket is full, so a burst of one second's worth passes at once, and
/// nothing waits on it.
pub proof fn law_new_bucket_is_full<A>(rate: nat, now: nat)
    ensures
        ({
            let fresh = Shaped::<A>::fresh(rate, now);
            &&& fresh.level.rate == rate
            &&& fresh.level.tokens == rate * 1_000_000_000
            &&& fresh.level.last == now
            &&& fresh.queue.len() == 0
            &&& fresh.queued_bytes == 0
        }),
{
}

/// What packets cost at a rate: a billion tokens for each byte, of no packet more
/// than a second's worth.
pub open spec fn cost_of<A>(rate: nat, packets: Seq<Packet<A>>) -> nat
    decreases packets.len(),
{
    if packets.len() == 0 {
        0
    } else {
        let n = packets[0].data@.len();
        cost_of(rate, packets.drop_first()) + 1_000_000_000 * if n < rate {
            n
        } else {
            rate
        }
    }
}

/// What leaves a bucket when it is drained is paid for, to the token: what was in
/// the bucket once refilled is what is left and what the packets cost.
pub proof fn law_drained_packets_are_paid_for<A>(bucket: Shaped<A>, now: nat)
    requires
        bucket.wf(),
    ensures
        ({
            let after = bucket.drained(now);
            let left = bucket.queue.take(bucket.queue.len() - after.queue.len());
            &&& bucket.queue == left + after.queue
            &&& bucket.level.refilled(now).tokens == after.level.tokens + cost_of(
                bucket.level.rate,
                left,
            )
        }),
{
    let filled = bucket.level.refilled(now);
    lemma_payable(filled, bucket.queue);
    lemma_paid(filled, bucket.queue);
    let n = bucket.leaving(now) as int;
    assert(bucket.queue =~= bucket.queue.take(n) + bucket.queue.skip(n));
}

proof fn lemma_paid<A>(level: Level, queue: Seq<Packet<A>>)
    requires
        level.wf(),
    ensures
        level.tokens == level_after(level, queue).tokens + cost_of(
            level.rate,
            queue.take(payable(level, queue) as int),
        ),
    decreases queue.len(),
{
    let n = payable(level, queue) as int;
    if queue.len() > 0 && level.affords(queue[0].size()) {
        let spent = level.spent(queue[0].size());
        lemma_paid(spent, queue.drop_first());
        lemma_payable(spent, queue.drop_first());
        assert(queue.take(n).drop_first() =~= queue.drop_first().take(n - 1));
    }
}

/// A queue's bytes are those of its packets.
pub proof fn law_queued_bytes_add_up<A>(queue: Seq<Packet<A>>, packet: Packet<A>)
    ensures
        bytes_in(Seq::<Packet<A>>::empty()) == 0,
        bytes_in(queue.push(packet)) == bytes_in(queue) + packet.data@.len(),
{
    assert(queue.push(packet).drop_last() =~= queue);
}

/// A queue never holds more than 256 packets or a mebibyte.
pub proof fn law_queues_are_capped<A>(bucket: Shaped<A>, packet: Packet<A>, rate: nat, now: nat)
    requires
        bucket.wf(),
    ensures
        bucket.queue.len() <= 256,
        bytes_in(bucket.queue) <= 1_048_576,
        bucket.ready(rate, now).dealt(packet).wf(),
{
    assert(bucket.queue.push(packet).drop_last() =~= bucket.queue);
    assert(Level::full(rate, now).wf());
}

/// Whether a line says `n` behind a label, with a space or nothing behind it.
pub open spec fn says(line: Seq<char>, label: Seq<char>, n: nat) -> bool {
    exists|before: Seq<char>, after: Seq<char>|
        {
            &&& line == #[trigger] (before + label + decimal(n) + after)
            &&& after.len() == 0 || after[0] == ' '
        }
}

/// What stands behind a label and its number moves behind what stands before them.
proof fn lemma_says(
    line: Seq<char>,
    before: Seq<char>,
    label: Seq<char>,
    n: nat,
    after: Seq<char>,
) -> (rest: Seq<char>)
    requires
        line == before + label + decimal(n) + after,
        after.len() == 0 || after[0] == ' ',
    ensures
        says(line, label, n),
        rest == label + decimal(n) + after,
        line == before + rest,
{
    let rest = label + decimal(n) + after;
    assert(before + label + decimal(n) + after =~= before + rest);
    rest
}

/// The line in the log says of each counter what it has counted.
pub proof fn law_log_line_names_each_counter(log: StatsLog)
    ensures
        says(log.line(), "engine 5s: recv_ok="@, log.recv_ok),
        says(log.line(), " recv_err="@, log.recv_err),
        says(log.line(), " sent="@, log.sent),
        says(log.line(), " send_err="@, log.send_err),
        says(log.line(), " calc_err="@, log.calc_err),
        says(log.line(), " unattributed="@, log.unattributed),
        says(log.line(), " queued="@, log.queued),
        says(log.line(), " dropped="@, log.dropped),
{
    reveal_strlit(" recv_err=");
    reveal_strlit(" sent=");
    reveal_strlit(" send_err=");
    reveal_strlit(" calc_err=");
    reveal_strlit(" unattributed=");
    reveal_strlit(" queued=");
    reveal_strlit(" dropped=");
    let line = log.line();
    let none = Seq::<char>::empty();
    let a = "engine 5s: recv_ok="@ + decimal(log.recv_ok);
    let b = a + " recv_err="@ + decimal(log.recv_err);
    let c = b + " sent="@ + decimal(log.sent);
    let d = c + " send_err="@ + decimal(log.send_err);
    let e = d + " calc_err="@ + decimal(log.calc_err);
    let f = e + " unattributed="@ + decimal(log.unattributed);
    let g = f + " queued="@ + decimal(log.queued);
    assert(line == g + " dropped="@ + decimal(log.dropped));
    assert(line =~= line + none);
    let rest = lemma_says(line, g, " dropped="@, log.dropped, none);
    let rest = lemma_says(line, f, " queued="@, log.queued, rest);
    let rest = lemma_says(line, e, " unattributed="@, log.unattributed, rest);
    let rest = lemma_says(line, d, " calc_err="@, log.calc_err, rest);
    let rest = lemma_says(line, c, " send_err="@, log.send_err, rest);
    let rest = lemma_says(line, b, " sent="@, log.sent, rest);
    let rest = lemma_says(line, a, " recv_err="@, log.recv_err, rest);
    assert(none + "engine 5s: recv_ok="@ =~= "engine 5s: recv_ok="@);
    let _ = lemma_says(line, none, "engine 5s: recv_ok="@, log.recv_ok, rest);
}

/// A packet that came in counts as received, and as one without checksums if they
/// could not be worked out; no other counter moves.
pub proof fn law_received_packets_are_counted(log: StatsLog, checksums: bool)
    ensures
        ({
            let after = log.received(checksums);
            &&& after.recv_ok == log.recv_ok + 1
            &&& checksums ==> after.calc_err == log.calc_err
            &&& !checksums ==> after.calc_err == log.calc_err + 1
            &&& after.recv_err == log.recv_err
            &&& after.sent == log.sent
            &&& after.send_err == log.send_err
            &&& after.unattributed == log.unattributed
            &&& after.queued == log.queued
            &&& after.dropped == log.dropped
            &&& after.samples == log.samples
        }),
{
}

/// What leaves a bucket is released under its executable and its direction, packet
/// by packet and in order; draining one bucket more releases what that one lets go
/// behind all the rest.
pub proof fn law_releases_name_their_bucket<A>(
    buckets: Seq<((Seq<char>, Dir), Shaped<A>)>,
    key: (Seq<char>, Dir),
    bucket: Shaped<A>,
    now: nat,
    i: int,
)
    requires
        bucket.wf(),
        0 <= i < bucket.queue.len() - bucket.drained(now).queue.len(),
    ensures
        ({
            let before = all_released(buckets, now);
            let after = all_released(buckets.push((key, bucket)), now);
            let left = bucket.queue.len() - bucket.drained(now).queue.len();
            &&& after.len() == before.len() + left
            &&& after.take(before.len() as int) == before
            &&& after[before.len() + i].exe == key.0
            &&& after[before.len() + i].dir == key.1
            &&& after[before.len() + i].packet == bucket.queue[i]
        }),
{
    let all = buckets.push((key, bucket));
    assert(all.drop_last() =~= buckets);
    assert(all.last() == (key, bucket));
    lemma_payable(bucket.level.refilled(now), bucket.queue);
    let before = all_released(buckets, now);
    assert(all_released(all, now).take(before.len() as int) =~= before);
}

} // verus!
