use vstd::prelude::*;
use crate::node_id::NodeId;
use crate::stats::{RateLimitConfig, RateLimitError, RateLimitStats, RateLimitStatus};
use crate::types::{sat_add, sat_sub, Timestamp};

verus! {

/// Tokens after refilling for `elapsed` seconds at `rate`, capped at `max`.
pub open spec fn refilled(tokens: u64, rate: u64, elapsed: int, max: u64) -> int {
    let t = tokens + rate * elapsed;
    if t > max {
        max as int
    } else {
        t
    }
}

/// A per-peer token bucket with a penalty window.
#[derive(Debug, Clone, Copy)]
pub struct TokenBucket {
    pub tokens: u64,
    pub max_tokens: u64,
    pub refill_rate: u64,
    pub last_refill: Timestamp,
    pub penalty_until: Option<Timestamp>,
    pub violations: u32,
}

impl TokenBucket {
    /// A full bucket at `now`.
    pub fn new_at(max_tokens: u64, refill_rate: u64, now: Timestamp) -> (r: TokenBucket)
        ensures
            r.tokens == max_tokens,
            r.max_tokens == max_tokens,
            r.refill_rate == refill_rate,
            r.last_refill == now,
            r.penalty_until is None,
            r.violations == 0,
    {
        TokenBucket { tokens: max_tokens, max_tokens, refill_rate, last_refill: now, penalty_until: None, violations: 0 }
    }

    /// Adds the tokens earned since the last refill, up to the maximum.
    pub fn refill_at(&mut self, now: Timestamp)
        requires
            old(self).tokens <= old(self).max_tokens,
        ensures
            final(self).tokens == refilled(
                old(self).tokens,
                old(self).refill_rate,
                sat_sub(now.0 as int, old(self).last_refill.0 as int),
                old(self).max_tokens,
            ),
            final(self).tokens <= final(self).max_tokens,
            final(self).last_refill == now,
            final(self).max_tokens == old(self).max_tokens,
            final(self).refill_rate == old(self).refill_rate,
            final(self).penalty_until == old(self).penalty_until,
            final(self).violations == old(self).violations,
    {
        let elapsed = self.last_refill.elapsed_at(now);
        assert((elapsed as int) * (self.refill_rate as int) <= (u64::MAX as int) * (u64::MAX as int)) by (nonlinear_arith)
            requires
                0 <= elapsed <= u64::MAX,
                0 <= self.refill_rate <= u64::MAX,
        ;
        let earned: u128 = elapsed as u128 * self.refill_rate as u128;
        let total: u128 = self.tokens as u128 + earned;
        assert(earned == self.refill_rate * elapsed) by (nonlinear_arith)
            requires
                earned == elapsed as u128 * self.refill_rate as u128,
        ;
        if total > self.max_tokens as u128 {
            self.tokens = self.max_tokens;
        } else {
            self.tokens = total as u64;
        }
        self.last_refill = now;
    }

    /// Whether the penalty window covers `now`.
    pub fn is_penalized_at(&self, now: Timestamp) -> (r: bool)
        ensures
            r == (self.penalty_until matches Some(t) && now.0 < t.0),
    {
        match self.penalty_until {
            Some(t) => now.0 < t.0,
            None => false,
        }
    }

    /// Takes `amount` tokens at `now`; refused while penalized or short.
    pub fn try_consume_at(&mut self, amount: u64, now: Timestamp) -> (r: bool)
        requires
            old(self).tokens <= old(self).max_tokens,
        ensures
            final(self).tokens <= final(self).max_tokens,
            final(self).max_tokens == old(self).max_tokens,
            old(self).is_penalized_at_spec(now) ==> !r && *final(self) == *old(self),
            !old(self).is_penalized_at_spec(now) ==> {
                let avail = refilled(
                    old(self).tokens,
                    old(self).refill_rate,
                    sat_sub(now.0 as int, old(self).last_refill.0 as int),
                    old(self).max_tokens,
                );
                &&& r == (avail >= amount)
                &&& final(self).tokens == if avail >= amount { avail - amount } else { avail }
                &&& final(self).penalty_until is None
            },
    {
        if self.is_penalized_at(now) {
            return false;
        }
        self.penalty_until = None;
        self.refill_at(now);
        if self.tokens >= amount {
            self.tokens = self.tokens - amount;
            true
        } else {
            false
        }
    }

    pub open spec fn is_penalized_at_spec(&self, now: Timestamp) -> bool {
        self.penalty_until matches Some(t) && now.0 < t.0
    }

    /// Counts a violation, drains the bucket and refuses the peer for
    /// `penalty_secs` from `now`.
    pub fn apply_penalty_at(&mut self, now: Timestamp, penalty_secs: u64)
        ensures
            final(self).violations == if old(self).violations == u32::MAX { u32::MAX } else { (old(self).violations + 1) as u32 },
            final(self).tokens == 0,
            final(self).penalty_until == Some(Timestamp(sat_add(now.0 as int, penalty_secs as int) as u64)),
            final(self).max_tokens == old(self).max_tokens,
            final(self).refill_rate == old(self).refill_rate,
            final(self).last_refill == old(self).last_refill,
    {
        self.violations = self.violations.saturating_add(1);
        self.penalty_until = Some(Timestamp(now.0.saturating_add(penalty_secs)));
        self.tokens = 0;
    }
}

impl RateLimitConfig {
    /// 10 MiB of tokens refilled at 1 MiB/s, 5 MiB bursts, a minute of penalty.
    pub fn new() -> (r: RateLimitConfig)
        ensures
            r.max_tokens == 10485760,
            r.refill_rate == 1048576,
            r.burst_size == 5242880,
            r.violation_penalty_secs == 60,
    {
        RateLimitConfig { max_tokens: 10485760, refill_rate: 1048576, burst_size: 5242880, violation_penalty_secs: 60 }
    }
}

/// Token buckets per peer.
#[derive(Debug)]
pub struct RateLimiter {
    config: RateLimitConfig,
    buckets: Vec<(NodeId, TokenBucket)>,
}

impl RateLimiter {
    pub closed spec fn bucket_seq(&self) -> Seq<(NodeId, TokenBucket)> {
        self.buckets@
    }

    pub closed spec fn config_view(&self) -> RateLimitConfig {
        self.config
    }

    /// Every bucket holds at most its maximum.
    pub open spec fn wf(&self) -> bool {
        forall|i: int| 0 <= i < self.bucket_seq().len() ==> (#[trigger] self.bucket_seq()[i]).1.tokens <= self.bucket_seq()[i].1.max_tokens
    }

    pub fn new(config: RateLimitConfig) -> (r: RateLimiter)
        ensures
            r.wf(),
            r.config_view() == config,
            r.bucket_seq().len() == 0,
    {
        RateLimiter { config, buckets: Vec::new() }
    }

    fn position(&self, node_id: &NodeId) -> (r: Option<usize>)
        ensures
            r matches Some(i) ==> i < self.buckets@.len() && self.buckets@[i as int].0 == *node_id,
            r is None ==> forall|i: int| 0 <= i < self.buckets@.len() ==> self.buckets@[i].0 != *node_id,
    {
        let mut i: usize = 0;
        while i < self.buckets.len()
            invariant
                0 <= i <= self.buckets@.len(),
                forall|j: int| 0 <= j < i ==> self.buckets@[j].0 != *node_id,
            decreases self.buckets@.len() - i,
        {
            if self.buckets[i].0 == *node_id {
                return Some(i);
            }
            i = i + 1;
        }
        None
    }

    /// Charges `bytes` to `node_id` at `now`. A request above the burst size
    /// is a violation: the peer is penalized. A penalized peer is refused;
    /// otherwise the request passes when its bucket holds enough tokens.
    pub fn check_and_consume_at(&mut self, node_id: NodeId, bytes: u64, now: Timestamp) -> (r: Result<(), RateLimitError>)
        requires
            old(self).wf(),
        ensures
            final(self).wf(),
            final(self).config_view() == old(self).config_view(),
            bytes > old(self).config_view().burst_size ==> r == Err::<(), RateLimitError>(RateLimitError::BurstLimitExceeded),
    {
        let index = match self.position(&node_id) {
            Some(i) => i,
            None => {
                self.buckets.push((node_id, TokenBucket::new_at(self.config.max_tokens, self.config.refill_rate, now)));
                proof {
                    assert forall|i: int| 0 <= i < self.bucket_seq().len() implies (#[trigger] self.bucket_seq()[i]).1.tokens
                        <= self.bucket_seq()[i].1.max_tokens by {
                        if i < old(self).bucket_seq().len() {
                            assert(self.bucket_seq()[i] == old(self).bucket_seq()[i]);
                        }
                    }
                }
                self.buckets.len() - 1
            },
        };
        let ghost before = self.buckets@;
        let (id, mut bucket) = self.buckets[index];
        let result = if bytes > self.config.burst_size {
            bucket.apply_penalty_at(now, self.config.violation_penalty_secs);
            Err(RateLimitError::BurstLimitExceeded)
        } else if bucket.is_penalized_at(now) {
            Err(RateLimitError::NodePenalized)
        } else if bucket.try_consume_at(bytes, now) {
            Ok(())
        } else {
            Err(RateLimitError::RateLimitExceeded)
        };
        self.buckets.set(index, (id, bucket));
        proof {
            assert forall|i: int| 0 <= i < self.bucket_seq().len() implies (#[trigger] self.bucket_seq()[i]).1.tokens
                <= self.bucket_seq()[i].1.max_tokens by {
                if i != index {
                    assert(self.bucket_seq()[i] == before[i]);
                }
            }
        }
        result
    }

    /// The state of `node_id`'s bucket, refilled to `now`.
    pub fn get_status_at(&self, node_id: &NodeId, now: Timestamp) -> (r: Option<RateLimitStatus>)
        requires
            self.wf(),
        ensures
            r is None <==> forall|i: int| 0 <= i < self.bucket_seq().len() ==> self.bucket_seq()[i].0 != *node_id,
    {
        match self.position(node_id) {
            None => None,
            Some(i) => {
                let mut b = self.buckets[i].1;
                let penalized = b.is_penalized_at(now);
                b.refill_at(now);
                Some(RateLimitStatus {
                    available_tokens: b.tokens,
                    max_tokens: b.max_tokens,
                    refill_rate: b.refill_rate,
                    violations: b.violations,
                    is_penalized: penalized,
                })
            },
        }
    }

    /// Forgets `node_id`.
    pub fn reset_node(&mut self, node_id: &NodeId)
        requires
            old(self).wf(),
        ensures
            final(self).wf(),
            final(self).config_view() == old(self).config_view(),
            forall|i: int| 0 <= i < final(self).bucket_seq().len() ==> (#[trigger] final(self).bucket_seq()[i]).0 != *node_id
                || old(self).bucket_seq().contains(final(self).bucket_seq()[i]),
    {
        match self.position(node_id) {
            None => {},
            Some(i) => {
                let ghost before = self.buckets@;
                self.buckets.remove(i);
                proof {
                    assert forall|a: int| 0 <= a < self.bucket_seq().len() implies (#[trigger] self.bucket_seq()[a]).1.tokens
                        <= self.bucket_seq()[a].1.max_tokens by {
                        let oa = if a < i { a } else { a + 1 };
                        assert(self.bucket_seq()[a] == before[oa]);
                    }
                    assert forall|a: int| 0 <= a < self.bucket_seq().len() implies (#[trigger] self.bucket_seq()[a]).0 != *node_id
                        || old(self).bucket_seq().contains(self.bucket_seq()[a]) by {
                        let oa = if a < i { a } else { a + 1 };
                        assert(self.bucket_seq()[a] == before[oa]);
                    }
                }
            },
        }
    }

    /// Peers tracked, penalized at `now`, and violations (saturating).
    pub fn get_stats_at(&self, now: Timestamp) -> (r: RateLimitStats)
        ensures
            r.total_nodes == self.bucket_seq().len(),
            r.penalized_nodes <= r.total_nodes,
    {
        let mut penalized: usize = 0;
        let mut violations: u32 = 0;
        let mut i: usize = 0;
        while i < self.buckets.len()
            invariant
                0 <= i <= self.buckets@.len(),
                penalized <= i,
            decreases self.buckets@.len() - i,
        {
            if self.buckets[i].1.is_penalized_at(now) {
                penalized = penalized + 1;
            }
            violations = violations.saturating_add(self.buckets[i].1.violations);
            i = i + 1;
        }
        RateLimitStats { total_nodes: self.buckets.len(), penalized_nodes: penalized, total_violations: violations }
    }
}

} // verus!
