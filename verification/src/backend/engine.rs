//! Packet classification and token-bucket traffic shaping.
//!
//! Every captured packet is attributed to a process via the flow table; that
//! process's rule then decides whether the packet passes, is dropped, or, if a
//! speed limit applies and there aren't enough tokens, waits in a bucket for
//! its executable and direction. Draining refills the buckets and releases the
//! waiting packets as tokens become available.
//!
//! Byte counting reflects shaped throughput: bytes are only counted when a
//! packet is actually injected. Dropped packets are not counted.

use crate::addr::SocketAddr;
use crate::backend::flows::{FlowTable, FlowsView};
use crate::backend::sockets::{read_v4, read_v6, v4_at, v6_at, IPPROTO_TCP, IPPROTO_UDP};
use crate::backend::synthetic::{is_shapable, UNKNOWN_EXE};
use crate::table::{key_at, lemma_aligned, lemma_position, Key, Table};
use crate::text::{decimal, decimal_text, digest_of_text, optional, same_text, text_digest};
use crate::types::{Rule, RuleView};
use std::collections::VecDeque;
use vstd::prelude::*;
use vstd::string::*;

verus! {

broadcast use vstd::string::group_string_axioms;

/// Per-bucket queue caps (whichever is hit first). Beyond these, packets are
/// dropped, which for TCP just applies additional back-pressure.
pub const MAX_QUEUE_PKTS: usize = 256;

pub const MAX_QUEUE_BYTES: usize = 1_048_576;

/// How many distinct unattributed packets to keep per report.
pub const UNATTRIBUTED_SAMPLES: usize = 5;

/// Nanoseconds in a second.
pub const NANOS: u64 = 1_000_000_000;

/// Traffic direction, from the local host's point of view.
#[derive(Clone, Copy, PartialEq, Eq, Structural, Hash, Debug)]
pub enum Dir {
    /// Inbound / download.
    Down,
    /// Outbound / upload.
    Up,
}

/// What a token bucket holds. Tokens are counted in billionths of a byte, and
/// times in nanoseconds.
pub struct Level {
    pub rate: nat,
    pub tokens: nat,
    pub last: nat,
}

impl Level {
    /// The most tokens the bucket can hold: one second's worth.
    pub open spec fn capacity(self) -> nat {
        self.rate * NANOS as nat
    }

    /// The tokens fit into the bucket.
    pub open spec fn wf(self) -> bool {
        self.tokens <= self.capacity()
    }

    /// A full bucket.
    pub open spec fn full(rate: nat, now: nat) -> Level {
        Level { rate, tokens: rate * NANOS as nat, last: now }
    }

    /// The bucket at the fill rate `rate`, spilling what no longer fits.
    pub open spec fn at_rate(self, rate: nat) -> Level {
        let capacity = rate * NANOS as nat;
        Level {
            rate,
            tokens: if self.tokens > capacity {
                capacity
            } else {
                self.tokens
            },
            last: self.last,
        }
    }

    /// The bucket at time `now`, with the tokens that have flowed in since.
    pub open spec fn refilled(self, now: nat) -> Level {
        if now > self.last {
            let tokens = self.tokens + (now - self.last) as nat * self.rate;
            Level {
                rate: self.rate,
                tokens: if tokens > self.capacity() {
                    self.capacity()
                } else {
                    tokens
                },
                last: now,
            }
        } else {
            self
        }
    }

    /// What a packet of `n` bytes costs: its bytes, but never more than a
    /// whole bucket.
    pub open spec fn price(self, n: nat) -> nat {
        if n > self.rate {
            self.capacity()
        } else {
            n * NANOS as nat
        }
    }

    /// Whether a packet of `n` bytes can be paid for.
    pub open spec fn affords(self, n: nat) -> bool {
        self.tokens >= self.price(n)
    }

    /// The bucket after a packet of `n` bytes was paid for.
    pub open spec fn spent(self, n: nat) -> Level {
        Level {
            rate: self.rate,
            tokens: (self.tokens - self.price(n)) as nat,
            last: self.last,
        }
    }
}

/// `n` bytes' worth of tokens.
fn in_tokens(n: u64) -> (tokens: u128)
    ensures
        tokens == n * NANOS,
{
    assert(n * NANOS <= u64::MAX * NANOS) by (nonlinear_arith)
        requires
            n <= u64::MAX,
    ;
    n as u128 * NANOS as u128
}

/// A byte-denominated token bucket. Capacity equals `rate`, giving a one-second
/// burst allowance; tokens refill continuously at `rate` bytes/second.
#[derive(Debug)]
pub struct TokenBucket {
    rate: u64,
    tokens: u128,
    last: u64,
}

impl View for TokenBucket {
    type V = Level;

    closed spec fn view(&self) -> Level {
        Level { rate: self.rate as nat, tokens: self.tokens as nat, last: self.last as nat }
    }
}

impl TokenBucket {
    /// The tokens fit into the bucket.
    pub open spec fn wf(&self) -> bool {
        self@.wf()
    }

    /// A full bucket at time `now`.
    pub fn new_at(rate: u64, now: u64) -> (bucket: Self)
        ensures
            bucket.wf(),
            bucket@ == Level::full(rate as nat, now as nat),
    {
        TokenBucket { rate, tokens: in_tokens(rate), last: now }
    }

    /// Update the fill rate (e.g. after a rule edit), clamping current tokens to
    /// the new capacity.
    pub fn set_rate(&mut self, rate: u64)
        requires
            old(self).wf(),
        ensures
            final(self).wf(),
            final(self)@ == old(self)@.at_rate(rate as nat),
    {
        if rate != self.rate {
            self.rate = rate;
            let capacity: u128 = in_tokens(rate);
            if self.tokens > capacity {
                self.tokens = capacity;
            }
        }
    }

    /// Add tokens for elapsed time since the last refill, capped at capacity.
    pub fn refill(&mut self, now: u64)
        requires
            old(self).wf(),
        ensures
            final(self).wf(),
            final(self)@ == old(self)@.refilled(now as nat),
    {
        if now > self.last {
            let elapsed: u64 = now - self.last;
            let capacity: u128 = in_tokens(self.rate);
            if elapsed >= NANOS {
                assert(elapsed as nat * self.rate as nat >= self.rate as nat * NANOS as nat)
                    by (nonlinear_arith)
                    requires
                        elapsed >= NANOS,
                ;
                self.tokens = capacity;
            } else {
                assert(elapsed as nat * self.rate as nat <= u64::MAX as nat * NANOS as nat)
                    by (nonlinear_arith)
                    requires
                        elapsed < NANOS,
                ;
                let tokens: u128 = self.tokens + elapsed as u128 * self.rate as u128;
                self.tokens = if tokens > capacity {
                    capacity
                } else {
                    tokens
                };
            }
            self.last = now;
        }
    }

    /// Try to spend `n` bytes' worth of tokens. Returns `true` if consumed.
    ///
    /// A packet larger than the whole capacity can never fit under the normal
    /// rule, so as a special case we let it through once the bucket is full
    /// (draining all tokens); otherwise such a packet would stall forever.
    pub fn try_take(&mut self, n: u64) -> (taken: bool)
        requires
            old(self).wf(),
        ensures
            final(self).wf(),
            taken == old(self)@.affords(n as nat),
            final(self)@ == (if taken {
                old(self)@.spent(n as nat)
            } else {
                old(self)@
            }),
    {
        let capacity: u128 = in_tokens(self.rate);
        if n > self.rate {
            if self.tokens >= capacity {
                self.tokens = 0;
                true
            } else {
                false
            }
        } else {
            let price: u128 = in_tokens(n);
            if self.tokens >= price {
                self.tokens = self.tokens - price;
                true
            } else {
                false
            }
        }
    }
}

/// One thing that happens to a bucket.
pub enum Step {
    /// The bucket is refilled at this time.
    Refill(nat),
    /// A packet of this many bytes asks to pass.
    Take(nat),
}

/// The bucket after the steps.
pub open spec fn after_steps(level: Level, steps: Seq<Step>) -> Level
    decreases steps.len(),
{
    if steps.len() == 0 {
        level
    } else {
        let before = after_steps(level, steps.drop_last());
        match steps.last() {
            Step::Refill(now) => before.refilled(now),
            Step::Take(n) => if before.affords(n) {
                before.spent(n)
            } else {
                before
            },
        }
    }
}

/// The bytes of the packets that the steps let through.
pub open spec fn bytes_passed(level: Level, steps: Seq<Step>) -> nat
    decreases steps.len(),
{
    if steps.len() == 0 {
        0
    } else {
        bytes_passed(level, steps.drop_last()) + match steps.last() {
            Step::Refill(_) => 0,
            Step::Take(n) => if after_steps(level, steps.drop_last()).affords(n) {
                n
            } else {
                0
            },
        }
    }
}

/// What the packets that the steps let through cost.
pub open spec fn tokens_spent(level: Level, steps: Seq<Step>) -> nat
    decreases steps.len(),
{
    if steps.len() == 0 {
        0
    } else {
        tokens_spent(level, steps.drop_last()) + match steps.last() {
            Step::Refill(_) => 0,
            Step::Take(n) => if after_steps(level, steps.drop_last()).affords(n) {
                level.price(n)
            } else {
                0
            },
        }
    }
}

/// Whether no packet among the steps is larger than `size` bytes.
pub open spec fn packets_within(steps: Seq<Step>, size: nat) -> bool {
    forall|i: int| 0 <= i < steps.len() ==> (#[trigger] steps[i] matches Step::Take(n) ==> n <= size)
}

/// However a bucket is used, what is spent and what is left never exceed what
/// was there at first and what flowed in at the fill rate since.
pub proof fn law_spending_is_bounded(level: Level, steps: Seq<Step>)
    requires
        level.wf(),
    ensures
        after_steps(level, steps).wf(),
        after_steps(level, steps).rate == level.rate,
        after_steps(level, steps).last >= level.last,
        tokens_spent(level, steps) + after_steps(level, steps).tokens <= level.tokens + level.rate
            * (after_steps(level, steps).last - level.last),
    decreases steps.len(),
{
    if steps.len() > 0 {
        law_spending_is_bounded(level, steps.drop_last());
        let before = after_steps(level, steps.drop_last());
        match steps.last() {
            Step::Refill(now) => {
                if now > before.last {
                    assert((now - before.last) * level.rate + level.rate * (before.last
                        - level.last) == level.rate * (now - level.last)) by (nonlinear_arith);
                }
            },
            Step::Take(n) => {},
        }
    } else {
        assert(level.rate * (level.last - level.last) == 0) by (nonlinear_arith);
    }
}

/// A limit holds: packets that fit into the bucket pass at no more than the
/// fill rate, over any stretch of time, beyond one second's burst.
pub proof fn law_throughput_is_limited(level: Level, steps: Seq<Step>)
    requires
        level.wf(),
        packets_within(steps, level.rate),
    ensures
        bytes_passed(level, steps) * NANOS <= level.rate * NANOS + level.rate * (after_steps(
            level,
            steps,
        ).last - level.last),
{
    law_spending_is_bounded(level, steps);
    lemma_spent_pays_for_bytes(level, steps);
}

proof fn lemma_spent_pays_for_bytes(level: Level, steps: Seq<Step>)
    requires
        level.wf(),
        packets_within(steps, level.rate),
    ensures
        tokens_spent(level, steps) == bytes_passed(level, steps) * NANOS,
    decreases steps.len(),
{
    if steps.len() > 0 {
        let rest = steps.drop_last();
        assert forall|i: int| 0 <= i < rest.len() implies (#[trigger] rest[i] matches Step::Take(n)
            ==> n <= level.rate) by {
            assert(rest[i] == steps[i]);
        }
        lemma_spent_pays_for_bytes(level, rest);
        assert(steps[steps.len() - 1] == steps.last());
    }
}

/// No packet waits forever: a second after any state the bucket is full, and
/// a full bucket lets a packet of any size through.
pub proof fn law_no_packet_stalls(level: Level, now: nat, n: nat)
    requires
        level.wf(),
        now >= level.last + NANOS,
    ensures
        level.refilled(now).tokens == level.capacity(),
        level.refilled(now).affords(n),
{
    assert((now - level.last) * level.rate >= level.rate * NANOS) by (nonlinear_arith)
        requires
            now - level.last >= NANOS,
    ;
    assert(n <= level.rate ==> n * NANOS <= level.rate * NANOS) by (nonlinear_arith);
}

/// A packet larger than the bucket passes only when the bucket is full, and
/// leaves it empty.
pub proof fn law_oversized_needs_a_full_bucket(level: Level, n: nat)
    requires
        level.wf(),
        n > level.rate,
    ensures
        level.affords(n) <==> level.tokens == level.capacity(),
        level.affords(n) ==> level.spent(n).tokens == 0,
{
}

/// A packet's protocol, source and destination.
pub type FiveTuple = (u8, SocketAddr, SocketAddr);

/// The source and destination ports at the head of a TCP or UDP segment, and
/// zeros for any other protocol or a truncated segment.
pub open spec fn ports_of(protocol: u8, segment: Seq<u8>) -> (u16, u16) {
    if (protocol == IPPROTO_TCP || protocol == IPPROTO_UDP) && segment.len() >= 4 {
        (
            (segment[0] * 256 + segment[1]) as u16,
            (segment[2] * 256 + segment[3]) as u16,
        )
    } else {
        (0, 0)
    }
}

/// Extract `(src_port, dst_port)` for TCP (6) / UDP (17); `(0, 0)` otherwise.
pub fn l4_ports(protocol: u8, l4: &[u8]) -> (ports: (u16, u16))
    ensures
        ports == ports_of(protocol, l4@),
{
    if (protocol == IPPROTO_TCP || protocol == IPPROTO_UDP) && l4.len() >= 4 {
        (l4[0] as u16 * 256 + l4[1] as u16, l4[2] as u16 * 256 + l4[3] as u16)
    } else {
        (0, 0)
    }
}

/// What an IPv4 or IPv6 packet says about itself; nothing if the bytes are
/// truncated or hold no IP packet. IPv6 extension headers are not walked.
pub open spec fn five_tuple(data: Seq<u8>) -> Option<FiveTuple> {
    if data.len() == 0 {
        None
    } else if data[0] / 16 == 4 {
        let header = (data[0] % 16) * 4;
        if data.len() < 20 || header < 20 || data.len() < header {
            None
        } else {
            let ports = ports_of(data[9], data.skip(header));
            Some(
                (
                    data[9],
                    SocketAddr { ip: v4_at(data, 12), port: ports.0 },
                    SocketAddr { ip: v4_at(data, 16), port: ports.1 },
                ),
            )
        }
    } else if data[0] / 16 == 6 {
        if data.len() < 40 {
            None
        } else {
            let ports = ports_of(data[6], data.skip(40));
            Some(
                (
                    data[6],
                    SocketAddr { ip: v6_at(data, 8), port: ports.0 },
                    SocketAddr { ip: v6_at(data, 24), port: ports.1 },
                ),
            )
        }
    } else {
        None
    }
}

/// Zero-copy parse of an IPv4/IPv6 packet into `(protocol, src, dst)` socket
/// addresses. Ports are extracted for TCP/UDP; other protocols yield port 0
/// (which won't match a flow-table entry). Returns `None` for truncated or
/// non-IP data.
pub fn parse_packet(data: &[u8]) -> (parsed: Option<FiveTuple>)
    ensures
        parsed == five_tuple(data@),
{
    if data.len() == 0 {
        return None;
    }
    let version: u8 = data[0] / 16;
    if version == 4 {
        if data.len() < 20 {
            return None;
        }
        let header: usize = (data[0] % 16) as usize * 4;
        if header < 20 || data.len() < header {
            return None;
        }
        let protocol: u8 = data[9];
        let segment = vstd::slice::slice_subrange(data, header, data.len());
        assert(segment@ =~= data@.skip(header as int));
        let (source, destination) = l4_ports(protocol, segment);
        Some(
            (
                protocol,
                SocketAddr::new(read_v4(data, 12), source),
                SocketAddr::new(read_v4(data, 16), destination),
            ),
        )
    } else if version == 6 {
        if data.len() < 40 {
            return None;
        }
        // IPv6 extension headers are not walked; `next_header` is treated as
        // the L4 protocol. Non-TCP/UDP yields port 0.
        let protocol: u8 = data[6];
        let segment = vstd::slice::slice_subrange(data, 40, data.len());
        assert(segment@ =~= data@.skip(40));
        let (source, destination) = l4_ports(protocol, segment);
        Some(
            (
                protocol,
                SocketAddr::new(read_v6(data, 8), source),
                SocketAddr::new(read_v6(data, 24), destination),
            ),
        )
    } else {
        None
    }
}

/// A captured packet. The address is whatever the capture needs to inject it
/// again; it is carried along untouched.
pub struct Packet<A> {
    pub address: A,
    pub outbound: bool,
    pub data: Vec<u8>,
}

impl<A> Packet<A> {
    /// The packet's size in bytes.
    pub open spec fn size(self) -> nat {
        self.data@.len()
    }

    /// The direction the packet travels in.
    pub open spec fn dir(self) -> Dir {
        if self.outbound {
            Dir::Up
        } else {
            Dir::Down
        }
    }
}

/// Bucket identity: one token bucket per executable per direction.
pub type BucketKey = (String, Dir);

impl View for Dir {
    type V = Dir;

    open spec fn view(&self) -> Dir {
        *self
    }
}

impl Key for (String, Dir) {
    type Probe = (String, Dir);

    open spec fn digest_of(key: (Seq<char>, Dir)) -> u64 {
        digest_of_text(key.0) ^ (if key.1 is Up {
            1u64
        } else {
            0u64
        })
    }

    fn digest(probe: &(String, Dir)) -> (d: u64) {
        text_digest(probe.0.as_str()) ^ (if probe.1 == Dir::Up {
            1u64
        } else {
            0u64
        })
    }

    fn matches(&self, probe: &(String, Dir)) -> (same: bool) {
        self.1 == probe.1 && same_text(self.0.as_str(), probe.0.as_str())
    }

    fn probe(&self) -> (probe: &(String, Dir)) {
        self
    }

    fn copy(&self) -> (key: (String, Dir)) {
        (self.0.clone(), self.1)
    }
}

/// A token bucket plus the queue of packets waiting on it.
pub struct ShapedBucket<A> {
    pub tb: TokenBucket,
    pub queue: VecDeque<Packet<A>>,
    pub queued_bytes: usize,
}

/// The bytes of a queue's packets.
pub open spec fn bytes_in<A>(queue: Seq<Packet<A>>) -> nat
    decreases queue.len(),
{
    if queue.len() == 0 {
        0
    } else {
        bytes_in(queue.drop_last()) + queue.last().size()
    }
}

/// What a shaped bucket holds.
pub struct Shaped<A> {
    pub level: Level,
    pub queue: Seq<Packet<A>>,
    pub queued_bytes: nat,
}

impl<A> View for ShapedBucket<A> {
    type V = Shaped<A>;

    open spec fn view(&self) -> Shaped<A> {
        Shaped {
            level: self.tb@,
            queue: self.queue@,
            queued_bytes: self.queued_bytes as nat,
        }
    }
}

impl<A> Shaped<A> {
    /// The queue is within its caps, and its bytes are counted right.
    pub open spec fn wf(self) -> bool {
        &&& self.level.wf()
        &&& self.queued_bytes == bytes_in(self.queue)
        &&& self.queue.len() <= MAX_QUEUE_PKTS
        &&& self.queued_bytes <= MAX_QUEUE_BYTES
    }

    /// A full bucket on which nothing waits.
    pub open spec fn fresh(rate: nat, now: nat) -> Shaped<A> {
        Shaped { level: Level::full(rate, now), queue: Seq::empty(), queued_bytes: 0 }
    }

    /// The bucket at a rate and a time, before a packet asks to pass.
    pub open spec fn ready(self, rate: nat, now: nat) -> Shaped<A> {
        Shaped { level: self.level.at_rate(rate).refilled(now), ..self }
    }

    /// Whether the queue has room for a packet.
    pub open spec fn has_room(self, packet: Packet<A>) -> bool {
        self.queue.len() < MAX_QUEUE_PKTS && self.queued_bytes + packet.size() <= MAX_QUEUE_BYTES
    }

    /// The bucket after a packet was queued.
    pub open spec fn queued(self, packet: Packet<A>) -> Shaped<A> {
        Shaped {
            level: self.level,
            queue: self.queue.push(packet),
            queued_bytes: self.queued_bytes + packet.size(),
        }
    }

    /// The bucket after a packet paid and passed.
    pub open spec fn passed(self, packet: Packet<A>) -> Shaped<A> {
        Shaped { level: self.level.spent(packet.size()), ..self }
    }

    /// The bucket after a packet that asked to pass was dealt with.
    pub open spec fn dealt(self, packet: Packet<A>) -> Shaped<A> {
        if self.level.affords(packet.size()) {
            self.passed(packet)
        } else if self.has_room(packet) {
            self.queued(packet)
        } else {
            self
        }
    }
}

impl<A> ShapedBucket<A> {
    /// A full bucket at time `now` on which nothing waits.
    pub fn new(rate: u64, now: u64) -> (bucket: Self)
        ensures
            bucket@.wf(),
            bucket@ == Shaped::<A>::fresh(rate as nat, now as nat),
    {
        let bucket = ShapedBucket {
            tb: TokenBucket::new_at(rate, now),
            queue: VecDeque::new(),
            queued_bytes: 0,
        };
        assert(bucket@.queue =~= Seq::<Packet<A>>::empty());
        bucket
    }
}

/// What becomes of a packet.
pub enum Verdict<A> {
    /// Inject it now.
    Pass(Packet<A>),
    /// It waits in a bucket, to be injected later.
    Hold,
    /// It is gone.
    Drop,
}

/// A packet that could not be attributed to a process.
#[derive(Clone, Copy, PartialEq, Eq, Structural, Debug)]
pub enum Sample {
    Parsed {
        protocol: u8,
        src: SocketAddr,
        dst: SocketAddr,
        outbound: bool,
        len: u64,
    },
    Unparsed { len: u64, outbound: bool },
}

/// Rolling diagnostics for the engine loop, reported every 5 seconds.
pub struct EngineStats {
    pub recv_ok: u64,
    pub recv_err: u64,
    pub sent: u64,
    pub send_err: u64,
    pub calc_err: u64,
    pub unattributed: u64,
    pub queued: u64,
    pub dropped: u64,
    /// Up to `UNATTRIBUTED_SAMPLES` example packets we failed to attribute,
    /// logged with the 5s report so misattribution can be diagnosed.
    pub unattributed_samples: Vec<Sample>,
}

/// What the diagnostics say.
pub struct StatsLog {
    pub recv_ok: nat,
    pub recv_err: nat,
    pub sent: nat,
    pub send_err: nat,
    pub calc_err: nat,
    pub unattributed: nat,
    pub queued: nat,
    pub dropped: nat,
    pub samples: Seq<Sample>,
}

impl View for EngineStats {
    type V = StatsLog;

    open spec fn view(&self) -> StatsLog {
        StatsLog {
            recv_ok: self.recv_ok as nat,
            recv_err: self.recv_err as nat,
            sent: self.sent as nat,
            send_err: self.send_err as nat,
            calc_err: self.calc_err as nat,
            unattributed: self.unattributed as nat,
            queued: self.queued as nat,
            dropped: self.dropped as nat,
            samples: self.unattributed_samples@,
        }
    }
}

impl StatsLog {
    /// No counter is about to overflow.
    pub open spec fn has_room(self) -> bool {
        &&& self.recv_ok < u64::MAX
        &&& self.recv_err < u64::MAX
        &&& self.sent < u64::MAX
        &&& self.send_err < u64::MAX
        &&& self.calc_err < u64::MAX
        &&& self.unattributed < u64::MAX
        &&& self.queued < u64::MAX
        &&& self.dropped < u64::MAX
    }

    /// The log after a packet could not be attributed.
    pub open spec fn missed(self, sample: Sample) -> StatsLog {
        StatsLog {
            unattributed: self.unattributed + 1,
            samples: if self.samples.len() < UNATTRIBUTED_SAMPLES && !self.samples.contains(
                sample,
            ) {
                self.samples.push(sample)
            } else {
                self.samples
            },
            ..self
        }
    }
}

impl Default for EngineStats {
    fn default() -> (stats: EngineStats)
        ensures
            stats@ == (StatsLog {
                recv_ok: 0,
                recv_err: 0,
                sent: 0,
                send_err: 0,
                calc_err: 0,
                unattributed: 0,
                queued: 0,
                dropped: 0,
                samples: Seq::empty(),
            }),
    {
        let stats = EngineStats {
            recv_ok: 0,
            recv_err: 0,
            sent: 0,
            send_err: 0,
            calc_err: 0,
            unattributed: 0,
            queued: 0,
            dropped: 0,
            unattributed_samples: Vec::new(),
        };
        assert(stats@.samples =~= Seq::<Sample>::empty());
        stats
    }
}

impl EngineStats {
    /// Whether every counter can still count.
    pub fn has_room(&self) -> (room: bool)
        ensures
            room == self@.has_room(),
    {
        self.recv_ok < u64::MAX && self.recv_err < u64::MAX && self.sent < u64::MAX && self.send_err
            < u64::MAX && self.calc_err < u64::MAX && self.unattributed < u64::MAX && self.queued
            < u64::MAX && self.dropped < u64::MAX
    }

    /// Count a packet that could not be attributed, and keep it as a sample if
    /// it is a new one and there are few.
    fn note_unattributed(&mut self, sample: Sample)
        requires
            old(self)@.unattributed < u64::MAX,
        ensures
            final(self)@ == old(self)@.missed(sample),
    {
        self.unattributed = self.unattributed + 1;
        if self.unattributed_samples.len() < UNATTRIBUTED_SAMPLES {
            let mut i: usize = 0;
            while i < self.unattributed_samples.len()
                invariant
                    *self == (EngineStats { unattributed: self.unattributed, ..*old(self) }),
                    self.unattributed == old(self).unattributed + 1,
                    i <= self.unattributed_samples.len(),
                    forall|j: int| 0 <= j < i ==> self.unattributed_samples@[j] != sample,
                decreases self.unattributed_samples.len() - i,
            {
                if self.unattributed_samples[i] == sample {
                    assert(self.unattributed_samples@.contains(sample));
                    return;
                }
                i = i + 1;
            }
            self.unattributed_samples.push(sample);
        }
    }
}

/// The executable that a packet belongs to.
pub open spec fn attributed(flows: FlowsView, data: Seq<u8>, outbound: bool) -> Option<Seq<char>> {
    match five_tuple(data) {
        Some((protocol, src, dst)) => if outbound {
            flows.exe_for(protocol, src, dst)
        } else {
            flows.exe_for(protocol, dst, src)
        },
        None => None,
    }
}

/// The rule that applies to an executable. The "Unknown" row is never shaped.
pub open spec fn rule_for(
    rules: Map<Seq<char>, RuleView>,
    exe: Option<Seq<char>>,
) -> Option<RuleView> {
    match exe {
        Some(exe) => if exe != UNKNOWN_EXE@ && rules.contains_key(exe) {
            Some(rules[exe])
        } else {
            None
        },
        None => None,
    }
}

/// What a rule makes of a direction.
pub enum Ruling {
    /// Unlimited: pass through untouched.
    Pass,
    /// Blocked: drop everything.
    Drop,
    /// Limited to this many bytes per second.
    Limit(u64),
}

/// What a rule, or its absence, makes of a direction. A blocked process gets
/// nothing through, and an explicit zero limit blocks its direction.
pub open spec fn ruling(rule: Option<RuleView>, outbound: bool) -> Ruling {
    match rule {
        None => Ruling::Pass,
        Some(rule) => if rule.blocked {
            Ruling::Drop
        } else {
            match if outbound {
                rule.up_limit
            } else {
                rule.down_limit
            } {
                None => Ruling::Pass,
                Some(rate) => if rate == 0 {
                    Ruling::Drop
                } else {
                    Ruling::Limit(rate)
                },
            }
        },
    }
}

/// What the sample of an unattributed packet holds.
pub open spec fn sample_of<A>(packet: Packet<A>) -> Sample {
    match five_tuple(packet.data@) {
        Some((protocol, src, dst)) => Sample::Parsed {
            protocol,
            src,
            dst,
            outbound: packet.outbound,
            len: packet.size() as u64,
        },
        None => Sample::Unparsed { len: packet.size() as u64, outbound: packet.outbound },
    }
}

/// The state of all shaping buckets.
pub type BucketMap<A> = Map<(Seq<char>, Dir), Shaped<A>>;

/// Every bucket is well formed.
pub open spec fn buckets_wf<A>(buckets: BucketMap<A>) -> bool {
    forall|key: (Seq<char>, Dir)| #[trigger] buckets.contains_key(key) ==> buckets[key].wf()
}

/// The bucket for a key, a fresh one if there is none.
pub open spec fn bucket_for<A>(
    buckets: BucketMap<A>,
    key: (Seq<char>, Dir),
    rate: nat,
    now: nat,
) -> Shaped<A> {
    if buckets.contains_key(key) {
        buckets[key]
    } else {
        Shaped::fresh(rate, now)
    }
}

/// Attribute a packet, parsed already, to an executable via the flow table.
fn attribute(flows: &FlowTable, parsed: Option<FiveTuple>, outbound: bool) -> (exe: Option<String>)
    requires
        flows.wf(),
    ensures
        optional(exe) == (match parsed {
            Some((protocol, src, dst)) => if outbound {
                flows@.exe_for(protocol, src, dst)
            } else {
                flows@.exe_for(protocol, dst, src)
            },
            None => None,
        }),
{
    match parsed {
        Some((protocol, src, dst)) => if outbound {
            flows.exe_for(protocol, src, dst)
        } else {
            flows.exe_for(protocol, dst, src)
        },
        None => None,
    }
}

/// What the rules make of an executable's traffic in one direction.
fn judge(rules: &Table<String, Rule>, exe: &Option<String>, outbound: bool) -> (verdict: Ruling)
    requires
        rules.wf(),
    ensures
        verdict == ruling(rule_for(rules@, optional(*exe)), outbound),
{
    let rule = match exe {
        Some(exe) => if is_shapable(exe.as_str()) {
            rules.get(exe.as_str())
        } else {
            None
        },
        None => None,
    };
    match rule {
        // No process match, or no rule: pass through untouched.
        None => Ruling::Pass,
        Some(rule) => if rule.blocked {
            Ruling::Drop
        } else {
            let limit = if outbound {
                rule.up_limit
            } else {
                rule.down_limit
            };
            match limit {
                // This direction is unlimited: pass through.
                None => Ruling::Pass,
                // An explicit zero limit means "block this direction".
                Some(rate) => if rate == 0 {
                    Ruling::Drop
                } else {
                    Ruling::Limit(rate)
                },
            }
        },
    }
}

/// What becomes of a packet that asks to pass a bucket.
pub open spec fn verdict_of<A>(bucket: Shaped<A>, packet: Packet<A>) -> Verdict<A> {
    if bucket.level.affords(packet.size()) {
        Verdict::Pass(packet)
    } else if bucket.has_room(packet) {
        Verdict::Hold
    } else {
        Verdict::Drop
    }
}

/// Let a packet ask to pass the bucket of its executable and direction.
fn shape<A>(
    buckets: &mut Table<BucketKey, ShapedBucket<A>>,
    exe: &String,
    rate: u64,
    packet: Packet<A>,
    now: u64,
) -> (verdict: Verdict<A>)
    requires
        old(buckets).wf(),
        buckets_wf(old(buckets)@),
    ensures
        final(buckets).wf(),
        buckets_wf(final(buckets)@),
        ({
            let key = (exe@, packet.dir());
            let bucket = bucket_for(old(buckets)@, key, rate as nat, now as nat).ready(
                rate as nat,
                now as nat,
            );
            &&& verdict == verdict_of(bucket, packet)
            &&& final(buckets)@ == old(buckets)@.insert(key, bucket.dealt(packet))
        }),
{
    let dir = if packet.outbound {
        Dir::Up
    } else {
        Dir::Down
    };
    let key: BucketKey = (exe.clone(), dir);
    let ghost probe = key@;
    let len: usize = packet.data.len();
    let found = buckets.find(&key);
    let mut bucket = match found {
        Some(i) => {
            proof {
                lemma_position(buckets.entries(), probe, i as int);
            }
            buckets.replace(i, ShapedBucket::new(0, 0))
        },
        None => ShapedBucket::new(rate, now),
    };
    let ghost before = bucket@;
    assert(before == bucket_for(old(buckets)@, probe, rate as nat, now as nat));
    assert(before.wf());
    bucket.tb.set_rate(rate);
    bucket.tb.refill(now);
    let ghost ready = bucket@;
    assert(ready == before.ready(rate as nat, now as nat));
    let verdict = if bucket.tb.try_take(len as u64) {
        // Tokens available: inject now.
        Verdict::Pass(packet)
    } else if bucket.queue.len() < MAX_QUEUE_PKTS && len <= MAX_QUEUE_BYTES && bucket.queued_bytes
        <= MAX_QUEUE_BYTES - len {
        // Hold the packet to be injected later.
        bucket.queued_bytes = bucket.queued_bytes + len;
        bucket.queue.push_back(packet);
        assert(bucket@.queue.drop_last() =~= ready.queue);
        Verdict::Hold
    } else {
        // Queue full: drop (back-pressure).
        Verdict::Drop
    };
    assert(bucket@ =~= ready.dealt(packet));
    let ghost settled = bucket@;
    match found {
        Some(i) => {
            let _ = buckets.replace(i, bucket);
        },
        None => {
            buckets.insert(key, bucket);
        },
    }
    assert(buckets@ =~= old(buckets)@.insert(probe, settled));
    verdict
}

/// What handling a packet comes to.
pub struct Handled<A> {
    /// The executable the packet belongs to.
    pub exe: Option<Seq<char>>,
    pub verdict: Verdict<A>,
    pub buckets: BucketMap<A>,
    pub log: StatsLog,
}

/// What handling `packet` at the time `now` comes to.
pub open spec fn handling<A>(
    flows: FlowsView,
    rules: Map<Seq<char>, RuleView>,
    buckets: BucketMap<A>,
    packet: Packet<A>,
    now: nat,
    log: StatsLog,
) -> Handled<A> {
    let exe = attributed(flows, packet.data@, packet.outbound);
    let (verdict, buckets) = match ruling(rule_for(rules, exe), packet.outbound) {
        Ruling::Pass => (Verdict::Pass(packet), buckets),
        Ruling::Drop => (Verdict::Drop, buckets),
        Ruling::Limit(rate) => {
            let key = (exe->0, packet.dir());
            let bucket = bucket_for(buckets, key, rate as nat, now).ready(rate as nat, now);
            (verdict_of(bucket, packet), buckets.insert(key, bucket.dealt(packet)))
        },
    };
    let log = if exe is None {
        log.missed(sample_of(packet))
    } else {
        log
    };
    let log = match verdict {
        Verdict::Pass(_) => log,
        Verdict::Hold => StatsLog { queued: log.queued + 1, ..log },
        Verdict::Drop => StatsLog { dropped: log.dropped + 1, ..log },
    };
    Handled { exe, verdict, buckets, log }
}

/// Classify one captured packet and apply a shaping verdict. Returns the
/// executable the packet belongs to, for [`count_sent`], and what becomes of it.
pub fn handle_packet<A>(
    flows: &FlowTable,
    rules: &Table<String, Rule>,
    buckets: &mut Table<BucketKey, ShapedBucket<A>>,
    packet: Packet<A>,
    now: u64,
    stats: &mut EngineStats,
) -> (handled: (Option<String>, Verdict<A>))
    requires
        flows.wf(),
        rules.wf(),
        old(buckets).wf(),
        buckets_wf(old(buckets)@),
        old(stats)@.unattributed < u64::MAX,
        old(stats)@.queued < u64::MAX,
        old(stats)@.dropped < u64::MAX,
    ensures
        final(buckets).wf(),
        buckets_wf(final(buckets)@),
        (Handled {
            exe: optional(handled.0),
            verdict: handled.1,
            buckets: final(buckets)@,
            log: final(stats)@,
        }) == handling(flows@, rules@, old(buckets)@, packet, now as nat, old(stats)@),
{
    let outbound = packet.outbound;
    let len: u64 = packet.data.len() as u64;
    let parsed = parse_packet(packet.data.as_slice());
    let exe = attribute(flows, parsed, outbound);
    if exe.is_none() {
        let sample = match parsed {
            Some((protocol, src, dst)) => Sample::Parsed { protocol, src, dst, outbound, len },
            None => Sample::Unparsed { len, outbound },
        };
        stats.note_unattributed(sample);
    }
    let verdict = match judge(rules, &exe, outbound) {
        Ruling::Pass => Verdict::Pass(packet),
        Ruling::Drop => Verdict::Drop,
        Ruling::Limit(rate) => match &exe {
            Some(exe) => shape(buckets, exe, rate, packet, now),
            // A rule implies an executable.
            None => Verdict::Drop,
        },
    };
    match &verdict {
        Verdict::Pass(_) => {},
        Verdict::Hold => {
            stats.queued = stats.queued + 1;
        },
        Verdict::Drop => {
            stats.dropped = stats.dropped + 1;
        },
    }
    (exe, verdict)
}

/// What came of waiting for a packet.
pub enum Received<A> {
    /// A packet, and whether its checksums could be recalculated. Captured
    /// packets can carry incomplete ones due to hardware offload.
    Packet { packet: Packet<A>, checksums: bool },
    /// The wait failed.
    Failed,
    /// There will be no more packets.
    NoData,
}

/// What the capture loop does next.
pub enum Task<A> {
    /// Inject this packet, then tell [`count_sent`] how it went.
    Send { exe: Option<String>, packet: Packet<A> },
    /// Wait for the next packet.
    Next,
    /// The wait failed: try again at once, without a look at the report.
    Retry,
    /// Exit.
    Stop,
}

impl StatsLog {
    /// The log after a packet was received.
    pub open spec fn received(self, checksums: bool) -> StatsLog {
        StatsLog {
            recv_ok: self.recv_ok + 1,
            calc_err: if checksums {
                self.calc_err
            } else {
                self.calc_err + 1
            },
            ..self
        }
    }
}

/// Take what the capture loop received and decide what it does next.
pub fn receive<A>(
    flows: &FlowTable,
    rules: &Table<String, Rule>,
    buckets: &mut Table<BucketKey, ShapedBucket<A>>,
    received: Received<A>,
    now: u64,
    stats: &mut EngineStats,
) -> (task: Task<A>)
    requires
        flows.wf(),
        rules.wf(),
        old(buckets).wf(),
        buckets_wf(old(buckets)@),
        old(stats)@.has_room(),
    ensures
        final(buckets).wf(),
        buckets_wf(final(buckets)@),
        match received {
            Received::Packet { packet, checksums } => {
                let handled = handling(
                    flows@,
                    rules@,
                    old(buckets)@,
                    packet,
                    now as nat,
                    old(stats)@.received(checksums),
                );
                &&& final(buckets)@ == handled.buckets
                &&& final(stats)@ == handled.log
                &&& match handled.verdict {
                    Verdict::Pass(packet) => task matches Task::Send { exe, packet: sent }
                        && optional(exe) == handled.exe && sent == packet,
                    _ => task is Next,
                }
            },
            Received::Failed => {
                &&& task is Retry
                &&& final(buckets)@ == old(buckets)@
                &&& final(stats)@ == (StatsLog {
                    recv_err: old(stats)@.recv_err + 1,
                    ..old(stats)@
                })
            },
            Received::NoData => {
                &&& task is Stop
                &&& final(buckets)@ == old(buckets)@
                &&& final(stats)@ == old(stats)@
            },
        },
{
    match received {
        Received::Packet { packet, checksums } => {
            stats.recv_ok = stats.recv_ok + 1;
            if !checksums {
                stats.calc_err = stats.calc_err + 1;
            }
            let (exe, verdict) = handle_packet(flows, rules, buckets, packet, now, stats);
            match verdict {
                Verdict::Pass(packet) => Task::Send { exe, packet },
                _ => Task::Next,
            }
        },
        Received::Failed => {
            stats.recv_err = stats.recv_err + 1;
            Task::Retry
        },
        Received::NoData => Task::Stop,
    }
}

/// How often the diagnostics are reported, in nanoseconds.
pub const REPORT_INTERVAL: u64 = 5_000_000_000;

/// Whether it is time for a report.
pub fn report_due(last: u64, now: u64) -> (due: bool)
    ensures
        due == (now - last >= REPORT_INTERVAL),
        due == (now >= last + 5 * 1_000_000_000),
{
    now >= last && now - last >= REPORT_INTERVAL
}

impl StatsLog {
    /// How the counters read in the log.
    pub open spec fn line(self) -> Seq<char> {
        "engine 5s: recv_ok="@ + decimal(self.recv_ok) + " recv_err="@ + decimal(self.recv_err)
            + " sent="@ + decimal(self.sent) + " send_err="@ + decimal(self.send_err)
            + " calc_err="@ + decimal(self.calc_err) + " unattributed="@ + decimal(
            self.unattributed,
        ) + " queued="@ + decimal(self.queued) + " dropped="@ + decimal(self.dropped)
    }
}

impl EngineStats {
    /// The counters in one line for the log.
    pub fn report(&self) -> (line: String)
        ensures
            line@ == self@.line(),
    {
        let mut line = "engine 5s: recv_ok=".to_string();
        line.append(decimal_text(self.recv_ok).as_str());
        line.append(" recv_err=");
        line.append(decimal_text(self.recv_err).as_str());
        line.append(" sent=");
        line.append(decimal_text(self.sent).as_str());
        line.append(" send_err=");
        line.append(decimal_text(self.send_err).as_str());
        line.append(" calc_err=");
        line.append(decimal_text(self.calc_err).as_str());
        line.append(" unattributed=");
        line.append(decimal_text(self.unattributed).as_str());
        line.append(" queued=");
        line.append(decimal_text(self.queued).as_str());
        line.append(" dropped=");
        line.append(decimal_text(self.dropped).as_str());
        line
    }
}

/// How `n` bytes count in a direction: `(down, up)`.
pub open spec fn split(dir: Dir, n: u64) -> (u64, u64) {
    match dir {
        Dir::Down => (n, 0),
        Dir::Up => (0, n),
    }
}

/// The flow table after an injected packet was counted. Unattributed traffic
/// still counts, under the "Unknown" row, so the totals and the graph reflect
/// actual link usage.
pub open spec fn counted(flows: FlowsView, exe: Option<Seq<char>>, dir: Dir, n: u64) -> FlowsView {
    let (down, up) = split(dir, n);
    match exe {
        Some(exe) => flows.with_bytes(exe, down, up),
        None => flows.with_bytes(UNKNOWN_EXE@, down, up),
    }
}

/// Take note of whether a packet was injected and, if so, count its bytes as
/// shaped throughput. Returns whether the failure is worth a warning: the first
/// few are, and every five-hundredth after that.
pub fn count_sent(
    flows: &mut FlowTable,
    stats: &mut EngineStats,
    exe: &Option<String>,
    outbound: bool,
    len: u64,
    sent: bool,
) -> (warn: bool)
    requires
        old(flows).wf(),
        old(stats)@.sent < u64::MAX,
        old(stats)@.send_err < u64::MAX,
    ensures
        final(flows).wf(),
        final(flows)@ == (if sent {
            counted(
                old(flows)@,
                optional(*exe),
                if outbound {
                    Dir::Up
                } else {
                    Dir::Down
                },
                len,
            )
        } else {
            old(flows)@
        }),
        final(stats)@ == (if sent {
            StatsLog { sent: old(stats)@.sent + 1, ..old(stats)@ }
        } else {
            StatsLog { send_err: old(stats)@.send_err + 1, ..old(stats)@ }
        }),
        warn == (!sent && (final(stats)@.send_err <= 5 || final(stats)@.send_err % 500 == 0)),
{
    if !sent {
        stats.send_err = stats.send_err + 1;
        return stats.send_err <= 5 || stats.send_err % 500 == 0;
    }
    stats.sent = stats.sent + 1;
    let (down, up): (u64, u64) = if outbound {
        (0, len)
    } else {
        (len, 0)
    };
    match exe {
        Some(exe) => flows.add_bytes(exe.as_str(), down, up),
        None => flows.add_unattributed(down, up),
    }
    false
}

/// How many packets at the head of a queue the tokens pay for.
pub open spec fn payable<A>(level: Level, queue: Seq<Packet<A>>) -> nat
    decreases queue.len(),
{
    if queue.len() > 0 && level.affords(queue[0].size()) {
        1 + payable(level.spent(queue[0].size()), queue.drop_first())
    } else {
        0
    }
}

/// The bucket after as many packets as it pays for left its queue.
pub open spec fn level_after<A>(level: Level, queue: Seq<Packet<A>>) -> Level
    decreases queue.len(),
{
    if queue.len() > 0 && level.affords(queue[0].size()) {
        level_after(level.spent(queue[0].size()), queue.drop_first())
    } else {
        level
    }
}

impl<A> Shaped<A> {
    /// How many packets leave when the bucket is drained.
    pub open spec fn leaving(self, now: nat) -> nat {
        payable(self.level.refilled(now), self.queue)
    }

    /// The bucket after it was drained.
    pub open spec fn drained(self, now: nat) -> Shaped<A> {
        let queue = self.queue.skip(self.leaving(now) as int);
        Shaped {
            level: level_after(self.level.refilled(now), self.queue),
            queue,
            queued_bytes: bytes_in(queue),
        }
    }
}

/// A packet released from a bucket.
pub struct Release<A> {
    pub exe: String,
    pub dir: Dir,
    pub packet: Packet<A>,
}

/// What a release says.
pub struct Released<A> {
    pub exe: Seq<char>,
    pub dir: Dir,
    pub packet: Packet<A>,
}

impl<A> View for Release<A> {
    type V = Released<A>;

    open spec fn view(&self) -> Released<A> {
        Released { exe: self.exe@, dir: self.dir, packet: self.packet }
    }
}

/// The releases of a run of packets from one bucket.
pub open spec fn releases<A>(key: (Seq<char>, Dir), packets: Seq<Packet<A>>) -> Seq<Released<A>> {
    Seq::new(packets.len(), |i: int| Released { exe: key.0, dir: key.1, packet: packets[i] })
}

/// What a run of releases says.
pub open spec fn released_views<A>(released: Seq<Release<A>>) -> Seq<Released<A>> {
    Seq::new(released.len(), |i: int| released[i]@)
}

/// Everything that leaves the buckets when they are drained, bucket by bucket
/// and in the order of each queue.
pub open spec fn all_released<A>(
    buckets: Seq<((Seq<char>, Dir), Shaped<A>)>,
    now: nat,
) -> Seq<Released<A>>
    decreases buckets.len(),
{
    if buckets.len() == 0 {
        Seq::empty()
    } else {
        let (key, bucket) = buckets.last();
        all_released(buckets.drop_last(), now) + releases(
            key,
            bucket.queue.take(bucket.leaving(now) as int),
        )
    }
}

pub(crate) proof fn lemma_payable<A>(level: Level, queue: Seq<Packet<A>>)
    requires
        level.wf(),
    ensures
        payable(level, queue) <= queue.len(),
        level_after(level, queue).wf(),
        level_after(level, queue).rate == level.rate,
    decreases queue.len(),
{
    if queue.len() > 0 && level.affords(queue[0].size()) {
        lemma_payable(level.spent(queue[0].size()), queue.drop_first());
    }
}

pub(crate) proof fn lemma_bytes_of_rest<A>(queue: Seq<Packet<A>>)
    requires
        queue.len() > 0,
    ensures
        bytes_in(queue) == queue[0].size() + bytes_in(queue.drop_first()),
    decreases queue.len(),
{
    let rest = queue.drop_first();
    if queue.len() == 1 {
        assert(queue.drop_last() =~= Seq::<Packet<A>>::empty());
        assert(rest =~= Seq::<Packet<A>>::empty());
    } else {
        lemma_bytes_of_rest(queue.drop_last());
        assert(queue.drop_last().drop_first() =~= rest.drop_last());
        assert(queue.drop_last()[0] == queue[0]);
        assert(rest.last() == queue.last());
    }
}

/// Release the packets at the head of a bucket's queue that its tokens pay for.
fn drain_bucket<A>(
    bucket: &mut ShapedBucket<A>,
    exe: &String,
    dir: Dir,
    now: u64,
    released: &mut Vec<Release<A>>,
)
    requires
        old(bucket)@.wf(),
    ensures
        final(bucket)@.wf(),
        final(bucket)@ == old(bucket)@.drained(now as nat),
        released_views(final(released)@) == released_views(old(released)@) + releases(
            (exe@, dir),
            old(bucket)@.queue.take(old(bucket)@.leaving(now as nat) as int),
        ),
{
    bucket.tb.refill(now);
    let ghost start = bucket@;
    let ghost key = (exe@, dir);
    let ghost earlier = released@;
    let ghost mut gone: nat = 0;
    let ghost total = old(bucket)@.leaving(now as nat);
    proof {
        lemma_payable(start.level, start.queue);
        assert(start.queue.skip(0) =~= start.queue);
        assert(released_views(released@) =~= released_views(earlier) + releases(
            key,
            start.queue.take(0),
        ));
    }
    let mut draining = true;
    while draining
        invariant
            start.wf(),
            start.queue == old(bucket)@.queue,
            total == payable(start.level, start.queue),
            total <= start.queue.len(),
            gone <= total,
            key == (exe@, dir),
            bucket@.level.wf(),
            bucket@.queue == start.queue.skip(gone as int),
            bucket@.queued_bytes == bytes_in(bucket@.queue),
            bucket@.queued_bytes <= start.queued_bytes,
            total == gone + payable(bucket@.level, bucket@.queue),
            level_after(start.level, start.queue) == level_after(bucket@.level, bucket@.queue),
            released_views(released@) == released_views(earlier) + releases(
                key,
                start.queue.take(gone as int),
            ),
            !draining ==> payable(bucket@.level, bucket@.queue) == 0 && level_after(
                bucket@.level,
                bucket@.queue,
            ) == bucket@.level,
        decreases (if draining {
                1int
            } else {
                0int
            }) + bucket@.queue.len(),
    {
        draining = false;
        if bucket.queue.len() > 0 {
            let len: usize = bucket.queue[0].data.len();
            let ghost before = bucket@;
            if bucket.tb.try_take(len as u64) {
                if let Some(packet) = bucket.queue.pop_front() {
                    proof {
                        lemma_bytes_of_rest(before.queue);
                        assert(bucket@.queue =~= before.queue.drop_first());
                        assert(bucket@.queue =~= start.queue.skip(gone as int + 1));
                        assert(packet == start.queue[gone as int]);
                    }
                    bucket.queued_bytes = bucket.queued_bytes - len;
                    let ghost listed = released@;
                    released.push(Release { exe: exe.clone(), dir, packet });
                    proof {
                        assert(released_views(released@) =~= released_views(listed).push(
                            Released { exe: key.0, dir: key.1, packet },
                        ));
                        assert(releases(key, start.queue.take(gone as int + 1)) =~= releases(
                            key,
                            start.queue.take(gone as int),
                        ).push(Released { exe: key.0, dir: key.1, packet }));
                        assert(released_views(released@) =~= released_views(earlier) + releases(
                            key,
                            start.queue.take(gone as int + 1),
                        ));
                        gone = gone + 1;
                    }
                    draining = true;
                }
            }
        }
    }
    assert(bucket@ =~= old(bucket)@.drained(now as nat));
}

/// Refill every bucket and release the waiting packets that it now pays for.
/// The caller injects them and hands those that went out to
/// [`count_released`].
#[verifier::spinoff_prover]
pub fn drain<A>(buckets: &mut Table<BucketKey, ShapedBucket<A>>, now: u64) -> (released: Vec<
    Release<A>,
>)
    requires
        old(buckets).wf(),
        buckets_wf(old(buckets)@),
    ensures
        final(buckets).wf(),
        buckets_wf(final(buckets)@),
        final(buckets)@ == old(buckets)@.map_values(|b: Shaped<A>| b.drained(now as nat)),
        released_views(released@) == all_released(old(buckets).entries(), now as nat),
{
    let ghost before = buckets.entries();
    let ghost after = Seq::new(
        before.len(),
        |j: int| (before[j].0, before[j].1.drained(now as nat)),
    );
    let mut released: Vec<Release<A>> = Vec::new();
    let mut i: usize = 0;
    proof {
        assert(before.take(0) =~= Seq::empty());
        assert(released_views(released@) =~= Seq::<Released<A>>::empty());
        assert(after.take(0) + before.skip(0) =~= before);
    }
    while i < buckets.len()
        invariant
            before == old(buckets).entries(),
            old(buckets).wf(),
            buckets_wf(old(buckets)@),
            after.len() == before.len(),
            forall|j: int|
                0 <= j < before.len() ==> (#[trigger] after[j]) == (
                    before[j].0,
                    before[j].1.drained(now as nat),
                ),
            buckets.wf(),
            i <= before.len(),
            buckets.entries() == after.take(i as int) + before.skip(i as int),
            forall|j: int| 0 <= j < i ==> (#[trigger] after[j]).1.wf(),
            released_views(released@) == all_released(before.take(i as int), now as nat),
        decreases before.len() - i,
    {
        let key = buckets.key(i).copy();
        proof {
            assert(key_at(before, before[i as int].0, i as int));
            lemma_position(before, before[i as int].0, i as int);
            assert(old(buckets)@.contains_key(before[i as int].0));
            assert(before.take(i + 1).drop_last() =~= before.take(i as int));
            assert(before.take(i + 1).last() == before[i as int]);
        }
        let ghost mixed = buckets.entries();
        assert(mixed[i as int] == before[i as int]);
        let mut bucket = buckets.replace(i, ShapedBucket::new(0, 0));
        assert(bucket@ == before[i as int].1 && bucket@.wf());
        drain_bucket(&mut bucket, &key.0, key.1, now, &mut released);
        assert(bucket@ == after[i as int].1 && bucket@.wf());
        let ghost drained = bucket@;
        let _ = buckets.replace(i, bucket);
        proof {
            assert(buckets.entries() =~= mixed.update(i as int, (before[i as int].0, drained)));
            assert(after[i as int] == (before[i as int].0, drained));
            assert(mixed.update(i as int, after[i as int]) =~= after.take(i + 1) + before.skip(
                i + 1,
            ));
        }
        i = i + 1;
    }
    proof {
        assert(before.take(i as int) =~= before);
        assert(buckets.entries() =~= after);
        let drained = old(buckets)@.map_values(|b: Shaped<A>| b.drained(now as nat));
        assert forall|key: (Seq<char>, Dir)| #[trigger]
            buckets@.contains_key(key) == drained.contains_key(key) && (buckets@.contains_key(key)
                ==> buckets@[key] == drained[key] && buckets@[key].wf()) by {
            lemma_aligned(before, after, key);
        }
        assert(buckets@ =~= drained);
    }
    released
}

/// Count the bytes of a released packet as shaped throughput, if it was
/// injected.
pub fn count_released<A>(flows: &mut FlowTable, release: &Release<A>, sent: bool)
    requires
        old(flows).wf(),
    ensures
        final(flows).wf(),
        final(flows)@ == (if sent {
            counted(
                old(flows)@,
                Some(release@.exe),
                release@.dir,
                release@.packet.size() as u64,
            )
        } else {
            old(flows)@
        }),
{
    if !sent {
        return;
    }
    let len: u64 = release.packet.data.len() as u64;
    let (down, up): (u64, u64) = match release.dir {
        Dir::Down => (len, 0),
        Dir::Up => (0, len),
    };
    flows.add_bytes(release.exe.as_str(), down, up);
}

/// Traffic that was not attributed, and attributed traffic without a rule,
/// always passes; no rule ever touches the "Unknown" row.
pub proof fn law_traffic_without_a_rule_passes(
    rules: Map<Seq<char>, RuleView>,
    exe: Seq<char>,
    outbound: bool,
)
    ensures
        ruling(rule_for(rules, None), outbound) is Pass,
        ruling(rule_for(rules, Some(UNKNOWN_EXE@)), outbound) is Pass,
        !rules.contains_key(exe) ==> ruling(rule_for(rules, Some(exe)), outbound) is Pass,
{
}

/// A blocked process gets nothing through in either direction, whatever its
/// limits say.
pub proof fn law_blocked_process_is_dropped(
    rules: Map<Seq<char>, RuleView>,
    exe: Seq<char>,
    outbound: bool,
)
    requires
        exe != UNKNOWN_EXE@,
        rules.contains_key(exe),
        rules[exe].blocked,
    ensures
        ruling(rule_for(rules, Some(exe)), outbound) is Drop,
{
}

/// A limit governs its own direction only.
pub proof fn law_limits_are_per_direction(a: RuleView, b: RuleView)
    requires
        a.blocked == b.blocked,
    ensures
        a.up_limit == b.up_limit ==> ruling(Some(a), true) == ruling(Some(b), true),
        a.down_limit == b.down_limit ==> ruling(Some(a), false) == ruling(Some(b), false),
{
}

/// Draining loses no packet and keeps their order: what leaves, followed by
/// what stays, is the queue as it was.
pub proof fn law_draining_keeps_order<A>(bucket: Shaped<A>, now: nat)
    requires
        bucket.wf(),
    ensures
        bucket.queue.take(bucket.leaving(now) as int) + bucket.drained(now).queue == bucket.queue,
{
    lemma_payable(bucket.level.refilled(now), bucket.queue);
    assert(bucket.queue.take(bucket.leaving(now) as int) + bucket.drained(now).queue
        =~= bucket.queue);
}

/// A packet at the head of a queue leaves no later than the first draining a
/// second after its bucket was last refilled.
pub proof fn law_waiting_packet_leaves<A>(bucket: Shaped<A>, now: nat)
    requires
        bucket.wf(),
        bucket.queue.len() > 0,
        now >= bucket.level.last + NANOS,
    ensures
        bucket.leaving(now) >= 1,
{
    law_no_packet_stalls(bucket.level, now, bucket.queue[0].size());
}

} // verus!
