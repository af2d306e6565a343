//! What limits and blocks come to, from the rules down to the packets that are
//! injected.

use crate::backend::engine::{
    all_released, attributed, bucket_for, bytes_in, handling, lemma_bytes_of_rest, lemma_payable, level_after,
    payable, releases, rule_for, ruling, BucketMap, Dir, Level, Packet, Released, Ruling, Shaped,
    StatsLog, Verdict, NANOS,
};
use crate::backend::flows::FlowsView;
use crate::backend::rules::with_rule;
use crate::backend::synthetic::UNKNOWN_EXE;
use crate::table::{lemma_no_entries, lemma_take, to_map, unique_keys};
use crate::text::lowercase;
use crate::types::RuleView;
use vstd::prelude::*;

verus! {

/// One use of a shaped bucket.
pub enum Use<A> {
    /// A packet is handled at this time.
    Packet(Packet<A>, nat),
    /// The bucket is drained at this time.
    Drain(nat),
}

impl<A> Shaped<A> {
    /// The bucket after a use at its own rate.
    pub open spec fn used(self, one: Use<A>) -> Shaped<A> {
        match one {
            Use::Packet(packet, now) => self.ready(self.level.rate, now).dealt(packet),
            Use::Drain(now) => self.drained(now),
        }
    }

    /// How many bytes a use lets out.
    pub open spec fn let_out(self, one: Use<A>) -> nat {
        match one {
            Use::Packet(packet, now) => if self.ready(self.level.rate, now).level.affords(
                packet.size(),
            ) {
                packet.size()
            } else {
                0
            },
            Use::Drain(now) => bytes_in(self.queue.take(self.leaving(now) as int)),
        }
    }

    /// The bucket after all uses.
    pub open spec fn after(self, uses: Seq<Use<A>>) -> Shaped<A>
        decreases uses.len(),
    {
        if uses.len() == 0 {
            self
        } else {
            self.after(uses.drop_last()).used(uses.last())
        }
    }

    /// How many bytes all uses let out.
    pub open spec fn all_out(self, uses: Seq<Use<A>>) -> nat
        decreases uses.len(),
    {
        if uses.len() == 0 {
            0
        } else {
            self.all_out(uses.drop_last()) + self.after(uses.drop_last()).let_out(uses.last())
        }
    }
}

/// Whether no packet is larger than `size` bytes.
pub open spec fn all_within<A>(packets: Seq<Packet<A>>, size: nat) -> bool {
    forall|i: int| 0 <= i < packets.len() ==> (#[trigger] packets[i]).size() <= size
}

/// Whether no use brings a packet larger than `size` bytes.
pub open spec fn uses_within<A>(uses: Seq<Use<A>>, size: nat) -> bool {
    forall|i: int|
        0 <= i < uses.len() ==> ((#[trigger] uses[i]) matches Use::Packet(packet, _)
            ==> packet.size() <= size)
}

/// Draining pays for every byte that leaves.
proof fn lemma_drained_bytes_are_paid<A>(level: Level, queue: Seq<Packet<A>>)
    requires
        level.wf(),
        all_within(queue, level.rate),
    ensures
        bytes_in(queue.take(payable(level, queue) as int)) * NANOS + level_after(level, queue).tokens
            == level.tokens,
        level_after(level, queue).last == level.last,
    decreases queue.len(),
{
    lemma_payable(level, queue);
    let n = payable(level, queue) as int;
    let leaving = queue.take(n);
    if n > 0 {
        let rest = queue.drop_first();
        let spent = level.spent(queue[0].size());
        assert forall|i: int| 0 <= i < rest.len() implies (#[trigger] rest[i]).size()
            <= level.rate by {
            assert(rest[i] == queue[i + 1]);
        }
        lemma_payable(spent, rest);
        lemma_drained_bytes_are_paid(spent, rest);
        lemma_bytes_of_rest(leaving);
        assert(leaving.drop_first() =~= rest.take(payable(spent, rest) as int));
    } else {
        assert(leaving =~= Seq::<Packet<A>>::empty());
    }
}

/// One use lets out what its tokens pay for, and keeps the bucket's rate.
proof fn lemma_use_is_paid<A>(bucket: Shaped<A>, one: Use<A>)
    requires
        bucket.level.wf(),
        all_within(bucket.queue, bucket.level.rate),
        one matches Use::Packet(packet, _) ==> packet.size() <= bucket.level.rate,
    ensures
        bucket.used(one).level.wf(),
        bucket.used(one).level.rate == bucket.level.rate,
        bucket.used(one).level.last >= bucket.level.last,
        all_within(bucket.used(one).queue, bucket.level.rate),
        bucket.let_out(one) * NANOS + bucket.used(one).level.tokens <= bucket.level.tokens
            + bucket.level.rate * (bucket.used(one).level.last - bucket.level.last),
{
    let rate = bucket.level.rate;
    let now = match one {
        Use::Packet(_, now) => now,
        Use::Drain(now) => now,
    };
    let filled = bucket.level.refilled(now);
    assert(filled.tokens <= bucket.level.tokens + rate * (filled.last - bucket.level.last))
        by (nonlinear_arith)
        requires
            filled.tokens <= bucket.level.tokens + (filled.last - bucket.level.last) * rate,
    ;
    match one {
        Use::Packet(packet, now) => {
            assert(bucket.level.at_rate(rate) == bucket.level);
        },
        Use::Drain(now) => {
            lemma_payable(filled, bucket.queue);
            lemma_drained_bytes_are_paid(filled, bucket.queue);
            let left = bucket.used(one).queue;
            let n = bucket.leaving(now) as int;
            assert forall|i: int| 0 <= i < left.len() implies (#[trigger] left[i]).size()
                <= rate by {
                assert(left[i] == bucket.queue[n + i]);
            }
        },
    }
}

/// A limit holds, whatever mix of handling and draining a bucket goes through:
/// over any stretch of time no more bytes get out than flow in at the limit,
/// beyond one second's burst. A packet that is larger than a second's worth is
/// let through at the price of a full bucket, so the law speaks of packets that
/// are not.
pub proof fn law_limit_holds<A>(bucket: Shaped<A>, uses: Seq<Use<A>>)
    requires
        bucket.level.wf(),
        all_within(bucket.queue, bucket.level.rate),
        uses_within(uses, bucket.level.rate),
    ensures
        bucket.all_out(uses) * NANOS <= bucket.level.rate * NANOS + bucket.level.rate * (
        bucket.after(uses).level.last - bucket.level.last),
{
    lemma_uses_are_paid(bucket, uses);
}

proof fn lemma_uses_are_paid<A>(bucket: Shaped<A>, uses: Seq<Use<A>>)
    requires
        bucket.level.wf(),
        all_within(bucket.queue, bucket.level.rate),
        uses_within(uses, bucket.level.rate),
    ensures
        bucket.after(uses).level.wf(),
        bucket.after(uses).level.rate == bucket.level.rate,
        bucket.after(uses).level.last >= bucket.level.last,
        all_within(bucket.after(uses).queue, bucket.level.rate),
        bucket.all_out(uses) * NANOS + bucket.after(uses).level.tokens <= bucket.level.tokens
            + bucket.level.rate * (bucket.after(uses).level.last - bucket.level.last),
    decreases uses.len(),
{
    let rate = bucket.level.rate;
    if uses.len() > 0 {
        let earlier = uses.drop_last();
        assert forall|i: int| 0 <= i < earlier.len() implies ((
        #[trigger] earlier[i]) matches Use::Packet(packet, _) ==> packet.size() <= rate) by {
            assert(earlier[i] == uses[i]);
        }
        lemma_uses_are_paid(bucket, earlier);
        let before = bucket.after(earlier);
        assert(uses[uses.len() - 1] == uses.last());
        lemma_use_is_paid(before, uses.last());
        let after = before.used(uses.last());
        assert(rate * (after.level.last - before.level.last) + rate * (before.level.last
            - bucket.level.last) == rate * (after.level.last - bucket.level.last))
            by (nonlinear_arith);
    } else {
        assert(rate * (bucket.level.last - bucket.level.last) == 0) by (nonlinear_arith);
    }
}

/// Handling a limited packet is a use of its bucket, a fresh one if there is none:
/// where the bucket runs at the limit already, it is used by the packet and no
/// other bucket moves, and the packet passes exactly if the use lets it out.
pub proof fn law_handling_uses_the_bucket<A>(
    flows: FlowsView,
    rules: Map<Seq<char>, RuleView>,
    exe: Seq<char>,
    rate: u64,
    buckets: BucketMap<A>,
    packet: Packet<A>,
    now: nat,
    log: StatsLog,
)
    requires
        attributed(flows, packet.data@, packet.outbound) == Some(exe),
        ruling(rule_for(rules, Some(exe)), packet.outbound) == Ruling::Limit(rate),
        bucket_for(buckets, (exe, packet.dir()), rate as nat, now).level.rate == rate,
    ensures
        ({
            let key = (exe, packet.dir());
            let bucket = bucket_for(buckets, key, rate as nat, now);
            let one = Use::Packet(packet, now);
            let handled = handling(flows, rules, buckets, packet, now, log);
            &&& handled.buckets == buckets.insert(key, bucket.used(one))
            &&& handled.verdict is Pass ==> handled.verdict == Verdict::Pass(packet)
                && bucket.let_out(one) == packet.size()
            &&& !(handled.verdict is Pass) ==> bucket.let_out(one) == 0
        }),
{
}

/// The bytes that were released from one bucket.
pub open spec fn bytes_released<A>(released: Seq<Released<A>>, key: (Seq<char>, Dir)) -> nat
    decreases released.len(),
{
    if released.len() == 0 {
        0
    } else {
        let last = released.last();
        bytes_released(released.drop_last(), key) + if (last.exe, last.dir) == key {
            last.packet.size()
        } else {
            0
        }
    }
}

proof fn lemma_bytes_of_both<A>(
    a: Seq<Released<A>>,
    b: Seq<Released<A>>,
    key: (Seq<char>, Dir),
)
    ensures
        bytes_released(a + b, key) == bytes_released(a, key) + bytes_released(b, key),
    decreases b.len(),
{
    if b.len() == 0 {
        assert(a + b =~= a);
    } else {
        assert((a + b).drop_last() =~= a + b.drop_last());
        lemma_bytes_of_both(a, b.drop_last(), key);
    }
}

proof fn lemma_bytes_from_one<A>(
    from: (Seq<char>, Dir),
    packets: Seq<Packet<A>>,
    key: (Seq<char>, Dir),
)
    ensures
        bytes_released(releases(from, packets), key) == if from == key {
            bytes_in(packets)
        } else {
            0
        },
    decreases packets.len(),
{
    if packets.len() > 0 {
        assert(releases(from, packets).drop_last() =~= releases(from, packets.drop_last()));
        lemma_bytes_from_one(from, packets.drop_last(), key);
    }
}

/// Draining is a use of every bucket: each is used by it, and what is released
/// from a bucket is what the use lets out.
pub proof fn law_draining_uses_every_bucket<A>(
    buckets: Seq<((Seq<char>, Dir), Shaped<A>)>,
    now: nat,
    key: (Seq<char>, Dir),
)
    requires
        unique_keys(buckets),
        to_map(buckets).contains_key(key),
    ensures
        to_map(buckets).map_values(|b: Shaped<A>| b.drained(now))[key] == to_map(buckets)[key].used(
            Use::Drain(now),
        ),
        bytes_released(all_released(buckets, now), key) == to_map(buckets)[key].let_out(
            Use::Drain(now),
        ),
{
    lemma_drained_bytes(buckets, now, key);
}

proof fn lemma_drained_bytes<A>(
    buckets: Seq<((Seq<char>, Dir), Shaped<A>)>,
    now: nat,
    key: (Seq<char>, Dir),
)
    requires
        unique_keys(buckets),
    ensures
        bytes_released(all_released(buckets, now), key) == if to_map(buckets).contains_key(key) {
            to_map(buckets)[key].let_out(Use::Drain(now))
        } else {
            0
        },
    decreases buckets.len(),
{
    if buckets.len() == 0 {
        lemma_no_entries(buckets);
    } else {
        let n = buckets.len() - 1;
        let (from, bucket) = buckets[n];
        let leaving = bucket.queue.take(bucket.leaving(now) as int);
        assert(buckets.take(n) =~= buckets.drop_last());
        assert(buckets.take(n + 1) =~= buckets);
        lemma_take(buckets, n);
        lemma_drained_bytes(buckets.take(n), now, key);
        lemma_bytes_of_both(all_released(buckets.take(n), now), releases(from, leaving), key);
        lemma_bytes_from_one(from, leaving, key);
    }
}

/// Once a process is blocked, every packet of it is dropped and none of its
/// buckets moves.
pub proof fn law_block_takes_effect<A>(
    flows: FlowsView,
    rules: Map<Seq<char>, RuleView>,
    rule: RuleView,
    buckets: BucketMap<A>,
    packet: Packet<A>,
    now: nat,
    log: StatsLog,
)
    requires
        rule.blocked,
        lowercase(rule.exe_path) != UNKNOWN_EXE@,
        attributed(flows, packet.data@, packet.outbound) == Some(lowercase(rule.exe_path)),
    ensures
        ({
            let handled = handling(
                flows,
                with_rule(rules, rule),
                buckets,
                packet,
                now,
                log,
            );
            handled.verdict is Drop && handled.buckets == buckets
        }),
{
}

/// Once its rule is removed, a process's traffic passes untouched.
pub proof fn law_removal_takes_effect<A>(
    flows: FlowsView,
    rules: Map<Seq<char>, RuleView>,
    exe: Seq<char>,
    buckets: BucketMap<A>,
    packet: Packet<A>,
    now: nat,
    log: StatsLog,
)
    requires
        attributed(flows, packet.data@, packet.outbound) == Some(exe),
    ensures
        ({
            let handled = handling(flows, rules.remove(exe), buckets, packet, now, log);
            handled.verdict == Verdict::Pass(packet) && handled.buckets == buckets
                && handled.log == log
        }),
{
}

/// One process's traffic never touches another's buckets, nor its own for the
/// other direction.
pub proof fn law_buckets_are_separate<A>(
    flows: FlowsView,
    rules: Map<Seq<char>, RuleView>,
    buckets: BucketMap<A>,
    packet: Packet<A>,
    now: nat,
    log: StatsLog,
    key: (Seq<char>, Dir),
)
    requires
        attributed(flows, packet.data@, packet.outbound) != Some(key.0) || packet.dir() != key.1,
    ensures
        ({
            let handled = handling(flows, rules, buckets, packet, now, log);
            &&& handled.buckets.contains_key(key) == buckets.contains_key(key)
            &&& handled.buckets[key] == buckets[key]
        }),
{
}

} // verus!
