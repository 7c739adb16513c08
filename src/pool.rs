use vstd::prelude::*;
use crate::circuit::{CircuitId, CircuitPurpose};
use crate::stats::{CircuitPoolConfig, CircuitPoolError, CircuitPoolStats, PoolStats};
use crate::types::{sat_sub, Timestamp};

verus! {

/// A circuit kept for reuse.
#[derive(Debug, Clone, Copy)]
pub struct PooledCircuit {
    pub circuit_id: CircuitId,
    pub purpose: CircuitPurpose,
    pub created_at: Timestamp,
    pub last_used: Timestamp,
    pub reuse_count: usize,
    pub in_use: bool,
}

impl CircuitPoolConfig {
    /// Three circuits per purpose, ten minutes of age, five idle seconds,
    /// ten uses.
    pub fn new() -> (r: CircuitPoolConfig)
        ensures
            r.target_pool_size == 3,
            r.max_circuit_age_secs == 600,
            r.min_idle_time_secs == 5,
            r.max_reuse_count == 10,
    {
        CircuitPoolConfig { target_pool_size: 3, max_circuit_age_secs: 600, min_idle_time_secs: 5, max_reuse_count: 10 }
    }
}

/// Young enough, not used up, and idle long enough at `now`.
pub open spec fn reusable_at(c: PooledCircuit, cfg: CircuitPoolConfig, now: Timestamp) -> bool {
    &&& sat_sub(now.0 as int, c.created_at.0 as int) <= cfg.max_circuit_age_secs
    &&& c.reuse_count < cfg.max_reuse_count
    &&& sat_sub(now.0 as int, c.last_used.0 as int) >= cfg.min_idle_time_secs
}

/// May be handed out for `purpose` at `now`.
pub open spec fn available_for(c: PooledCircuit, purpose: CircuitPurpose, cfg: CircuitPoolConfig, now: Timestamp) -> bool {
    c.purpose == purpose && !c.in_use && reusable_at(c, cfg, now)
}

/// Ready circuits kept for reuse, oldest first.
#[derive(Debug)]
pub struct CircuitPool {
    config: CircuitPoolConfig,
    entries: Vec<PooledCircuit>,
}

impl CircuitPool {
    pub closed spec fn entry_seq(&self) -> Seq<PooledCircuit> {
        self.entries@
    }

    pub closed spec fn config_view(&self) -> CircuitPoolConfig {
        self.config
    }

    pub fn new(config: CircuitPoolConfig) -> (r: CircuitPool)
        ensures
            r.entry_seq().len() == 0,
            r.config_view() == config,
    {
        CircuitPool { config, entries: Vec::new() }
    }

    /// Adds a circuit, idle and unused, at `now`.
    pub fn add_circuit_at(&mut self, circuit_id: CircuitId, purpose: CircuitPurpose, now: Timestamp)
        ensures
            final(self).config_view() == old(self).config_view(),
            final(self).entry_seq() == old(self).entry_seq().push(
                PooledCircuit { circuit_id, purpose, created_at: now, last_used: now, reuse_count: 0, in_use: false },
            ),
    {
        self.entries.push(PooledCircuit { circuit_id, purpose, created_at: now, last_used: now, reuse_count: 0, in_use: false });
    }

    /// Whether `c` may be reused at `now`.
    pub fn is_reusable_at(&self, c: &PooledCircuit, now: Timestamp) -> (r: bool)
        ensures
            r == reusable_at(*c, self.config_view(), now),
    {
        c.created_at.elapsed_at(now) <= self.config.max_circuit_age_secs && c.reuse_count < self.config.max_reuse_count
            && c.last_used.elapsed_at(now) >= self.config.min_idle_time_secs
    }

    /// Hands out the oldest circuit of `purpose` that is idle and reusable at
    /// `now`: it is marked in use, used once more and last used now.
    pub fn acquire_circuit_at(&mut self, purpose: CircuitPurpose, now: Timestamp) -> (r: Result<CircuitId, CircuitPoolError>)
        ensures
            final(self).config_view() == old(self).config_view(),
            final(self).entry_seq().len() == old(self).entry_seq().len(),
            r is Err <==> forall|i: int|
                0 <= i < old(self).entry_seq().len() ==> !available_for(
                    #[trigger] old(self).entry_seq()[i],
                    purpose,
                    old(self).config_view(),
                    now,
                ),
            r is Err ==> final(self).entry_seq() == old(self).entry_seq(),
            r matches Ok(id) ==> exists|i: int|
                0 <= i < old(self).entry_seq().len() && available_for(#[trigger] old(self).entry_seq()[i], purpose, old(self).config_view(), now)
                    && (forall|j: int| 0 <= j < i ==> !available_for(#[trigger] old(self).entry_seq()[j], purpose, old(self).config_view(), now))
                    && old(self).entry_seq()[i].circuit_id == id && final(self).entry_seq() == old(self).entry_seq().update(
                    i,
                    PooledCircuit {
                        in_use: true,
                        reuse_count: (old(self).entry_seq()[i].reuse_count + 1) as usize,
                        last_used: now,
                        ..old(self).entry_seq()[i]
                    },
                ),
    {
        let mut i: usize = 0;
        while i < self.entries.len()
            invariant
                0 <= i <= self.entries@.len(),
                self.entries@ == old(self).entries@,
                self.config == old(self).config,
                forall|j: int| 0 <= j < i ==> !available_for(#[trigger] self.entries@[j], purpose, self.config, now),
            decreases self.entries@.len() - i,
        {
            let c = self.entries[i];
            if c.purpose == purpose && !c.in_use && self.is_reusable_at(&c, now) {
                let updated = PooledCircuit { in_use: true, reuse_count: c.reuse_count + 1, last_used: now, ..c };
                self.entries.set(i, updated);
                proof {
                    assert(available_for(old(self).entry_seq()[i as int], purpose, old(self).config_view(), now));
                }
                return Ok(c.circuit_id);
            }
            i = i + 1;
        }
        Err(CircuitPoolError::NoCircuitsAvailable)
    }

    /// Returns a circuit to the pool: no longer in use, last used now.
    pub fn release_circuit_at(&mut self, circuit_id: CircuitId, purpose: CircuitPurpose, now: Timestamp)
        ensures
            final(self).config_view() == old(self).config_view(),
            final(self).entry_seq().len() == old(self).entry_seq().len(),
            forall|i: int|
                0 <= i < old(self).entry_seq().len() && old(self).entry_seq()[i].circuit_id == circuit_id
                    && old(self).entry_seq()[i].purpose == purpose ==> !(#[trigger] final(self).entry_seq()[i]).in_use,
    {
        let mut i: usize = 0;
        while i < self.entries.len()
            invariant
                0 <= i <= self.entries@.len(),
                self.entries@.len() == old(self).entries@.len(),
                self.config == old(self).config,
                forall|j: int| 0 <= j < self.entries@.len() ==> (#[trigger] self.entries@[j]).circuit_id == old(self).entries@[j].circuit_id
                    && self.entries@[j].purpose == old(self).entries@[j].purpose,
                forall|j: int|
                    0 <= j < i && old(self).entries@[j].circuit_id == circuit_id && old(self).entries@[j].purpose == purpose
                        ==> !(#[trigger] self.entries@[j]).in_use,
            decreases self.entries@.len() - i,
        {
            let c = self.entries[i];
            if c.circuit_id == circuit_id && c.purpose == purpose {
                self.entries.set(i, PooledCircuit { in_use: false, last_used: now, ..c });
            }
            i = i + 1;
        }
    }

    /// Retires the circuits that are too old or used up at `now`.
    pub fn cleanup_at(&mut self, now: Timestamp)
        ensures
            final(self).config_view() == old(self).config_view(),
            final(self).entry_seq() == old(self).entry_seq().filter(
                |c: PooledCircuit| sat_sub(now.0 as int, c.created_at.0 as int) <= old(self).config_view().max_circuit_age_secs
                    && c.reuse_count < old(self).config_view().max_reuse_count,
            ),
    {
        let ghost start = self.entries@;
        let ghost cfg = self.config;
        let mut kept: Vec<PooledCircuit> = Vec::new();
        let mut i: usize = 0;
        while i < self.entries.len()
            invariant
                0 <= i <= self.entries@.len(),
                self.entries@ == start,
                self.config == cfg,
                kept@ == start.subrange(0, i as int).filter(
                    |c: PooledCircuit| sat_sub(now.0 as int, c.created_at.0 as int) <= cfg.max_circuit_age_secs
                        && c.reuse_count < cfg.max_reuse_count,
                ),
            decreases self.entries@.len() - i,
        {
            let c = self.entries[i];
            proof {
                assert(start.subrange(0, i + 1) =~= start.subrange(0, i as int).push(start[i as int]));
                start.subrange(0, i as int).lemma_filter_push(
                    start[i as int],
                    |c: PooledCircuit| sat_sub(now.0 as int, c.created_at.0 as int) <= cfg.max_circuit_age_secs
                        && c.reuse_count < cfg.max_reuse_count,
                );
            }
            if c.created_at.elapsed_at(now) <= self.config.max_circuit_age_secs && c.reuse_count < self.config.max_reuse_count {
                kept.push(c);
            }
            i = i + 1;
        }
        assert(start.subrange(0, start.len() as int) =~= start);
        self.entries = kept;
    }

    /// Counts per purpose and overall.
    pub fn stats(&self) -> (r: CircuitPoolStats)
        ensures
            r.total_circuits == self.entry_seq().len(),
            r.in_use_circuits + r.available_circuits == r.total_circuits,
    {
        let mut in_use: usize = 0;
        let mut i: usize = 0;
        while i < self.entries.len()
            invariant
                0 <= i <= self.entries@.len(),
                in_use <= i,
            decreases self.entries@.len() - i,
        {
            if self.entries[i].in_use {
                in_use = in_use + 1;
            }
            i = i + 1;
        }
        let purposes: [CircuitPurpose; 5] = [
            CircuitPurpose::General,
            CircuitPurpose::Testing,
            CircuitPurpose::Directory,
            CircuitPurpose::Rendezvous,
            CircuitPurpose::Introduction,
        ];
        let mut by_purpose: Vec<(CircuitPurpose, PoolStats)> = Vec::new();
        let mut p: usize = 0;
        while p < 5
            invariant
                0 <= p <= 5,
            decreases 5 - p,
        {
            let purpose = purposes[p];
            let mut total: usize = 0;
            let mut busy: usize = 0;
            let mut j: usize = 0;
            while j < self.entries.len()
                invariant
                    0 <= j <= self.entries@.len(),
                    busy <= total,
                    total <= j,
                decreases self.entries@.len() - j,
            {
                if self.entries[j].purpose == purpose {
                    total = total + 1;
                    if self.entries[j].in_use {
                        busy = busy + 1;
                    }
                }
                j = j + 1;
            }
            if total > 0 {
                by_purpose.push((purpose, PoolStats { total, in_use: busy, available: total - busy }));
            }
            p = p + 1;
        }
        CircuitPoolStats {
            total_circuits: self.entries.len(),
            in_use_circuits: in_use,
            available_circuits: self.entries.len() - in_use,
            pools_by_purpose: by_purpose,
        }
    }
}

} // verus!
