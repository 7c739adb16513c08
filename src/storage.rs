use vstd::prelude::*;
use crate::encoding::bytes_to_vec;
use crate::node_id::NodeId;
use crate::types::{sat_sub, Timestamp};

verus! {

/// Most values kept under one key.
pub const MAX_VALUES_PER_KEY: usize = 20;

/// Lifetime of a stored value unless set otherwise: one day.
pub const DEFAULT_TTL_SECS: u64 = 86400;

/// A value published under a DHT key.
#[derive(Debug)]
pub struct StoredValue {
    pub data: Vec<u8>,
    pub publisher: NodeId,
    pub stored_at: Timestamp,
    /// Lifetime in seconds.
    pub ttl: u64,
    pub signature: Option<Vec<u8>>,
}

impl StoredValue {
    /// Expired iff more than `ttl` seconds passed since it was stored.
    pub open spec fn expired_at(&self, now: Timestamp) -> bool {
        sat_sub(now.0 as int, self.stored_at.0 as int) > self.ttl
    }

    pub fn new_at(data: Vec<u8>, publisher: NodeId, now: Timestamp) -> (r: StoredValue)
        ensures
            r.data == data,
            r.publisher == publisher,
            r.stored_at == now,
            r.ttl == DEFAULT_TTL_SECS,
            r.signature is None,
    {
        StoredValue { data, publisher, stored_at: now, ttl: DEFAULT_TTL_SECS, signature: None }
    }

    /// A value stored now, with the default lifetime and no signature.
    pub fn new(data: Vec<u8>, publisher: NodeId) -> (r: StoredValue)
        ensures
            r.data == data,
            r.publisher == publisher,
            r.ttl == DEFAULT_TTL_SECS,
            r.signature is None,
    {
        StoredValue::new_at(data, publisher, Timestamp::now())
    }

    /// Sets the lifetime, in seconds.
    pub fn with_ttl(self, ttl_secs: u64) -> (r: StoredValue)
        ensures
            r == (StoredValue { ttl: ttl_secs, ..self }),
    {
        StoredValue { ttl: ttl_secs, ..self }
    }

    pub fn with_signature(self, signature: Vec<u8>) -> (r: StoredValue)
        ensures
            r == (StoredValue { signature: Some(signature), ..self }),
    {
        StoredValue { signature: Some(signature), ..self }
    }

    pub fn is_expired_at(&self, now: Timestamp) -> (r: bool)
        ensures
            r == self.expired_at(now),
    {
        self.stored_at.elapsed_at(now) > self.ttl
    }

    pub fn is_expired(&self) -> bool {
        self.is_expired_at(Timestamp::now())
    }

    /// A field-by-field copy.
    pub fn copy(&self) -> (r: StoredValue)
        ensures
            r.data@ == self.data@,
            r.publisher == self.publisher,
            r.stored_at == self.stored_at,
            r.ttl == self.ttl,
            r.signature is Some <==> self.signature is Some,
            r.signature matches Some(s) ==> s@ == self.signature->0@,
    {
        let signature = match &self.signature {
            Some(s) => Some(bytes_to_vec(s.as_slice())),
            None => None,
        };
        StoredValue {
            data: bytes_to_vec(self.data.as_slice()),
            publisher: self.publisher,
            stored_at: self.stored_at,
            ttl: self.ttl,
            signature,
        }
    }
}

/// The values of `s` unexpired at `now`, in order.
pub open spec fn live_values(s: Seq<StoredValue>, now: Timestamp) -> Seq<StoredValue> {
    s.filter(|x: StoredValue| !x.expired_at(now))
}

/// How many values of `s` are expired at `now`.
pub open spec fn expired_count(s: Seq<StoredValue>, now: Timestamp) -> nat {
    s.filter(|x: StoredValue| x.expired_at(now)).len()
}

/// Expired values over the slots from index `m` on.
pub open spec fn expired_from(slots: Seq<StorageSlot>, m: int, now: Timestamp) -> nat
    decreases slots.len() - m,
{
    if m < 0 || m >= slots.len() {
        0
    } else {
        expired_count(slots[m].values@, now) + expired_from(slots, m + 1, now)
    }
}

/// `x`, capped at `usize::MAX`.
pub open spec fn cap_usize(x: nat) -> nat {
    if x > usize::MAX { usize::MAX as nat } else { x }
}

/// `new` is `old` with the values expired at `now` dropped, and the keys
/// left empty; `r` counts the dropped values.
pub open spec fn cleaned(old: DHTStorage, new: DHTStorage, now: Timestamp, r: usize) -> bool {
    &&& forall|k: [u8; 32]| #[trigger] new.has_key(k) <==> (old.has_key(k) && live_values(old.values_of(k), now).len() > 0)
    &&& forall|k: [u8; 32]| #[trigger] new.has_key(k) ==> same_values(new.values_of(k), live_values(old.values_of(k), now))
    &&& r == cap_usize(expired_from(old.slot_seq(), 0, now))
}

/// Storing `value` under `key` turned `old` into `new`, succeeding iff `ok`:
/// a new key needs room, else nothing changes; on success the key's values
/// follow `stored_after` and every other key is as it was.
pub open spec fn store_outcome(old: DHTStorage, new: DHTStorage, key: [u8; 32], value: StoredValue, ok: bool) -> bool {
    &&& (!old.has_key(key) && old.slot_seq().len() >= old.max_keys_spec()) ==> !ok && new.slot_seq() == old.slot_seq()
    &&& !(!old.has_key(key) && old.slot_seq().len() >= old.max_keys_spec()) ==> ok && new.has_key(key) && stored_after(
        old.values_of(key),
        new.values_of(key),
        value,
    )
    &&& forall|k: [u8; 32]| k != key ==> #[trigger] new.has_key(k) == old.has_key(k)
    &&& forall|k: [u8; 32]| k != key ==> #[trigger] new.values_of(k) == old.values_of(k)
}

/// `a` and `b` agree value by value.
pub open spec fn same_values(a: Seq<StoredValue>, b: Seq<StoredValue>) -> bool {
    a.len() == b.len() && forall|j: int| 0 <= j < a.len() ==> same_value(#[trigger] a[j], b[j])
}

/// Two values agree on every field.
pub open spec fn same_value(a: StoredValue, b: StoredValue) -> bool {
    &&& a.data@ == b.data@
    &&& a.publisher == b.publisher
    &&& a.stored_at == b.stored_at
    &&& a.ttl == b.ttl
    &&& (a.signature is Some <==> b.signature is Some)
    &&& (a.signature matches Some(s) ==> s@ == b.signature->0@)
}

/// No publisher occurs twice.
pub open spec fn distinct_publishers(s: Seq<StoredValue>) -> bool {
    forall|i: int, j: int| 0 <= i < j < s.len() ==> s[i].publisher != s[j].publisher
}

/// Index `i` holds the oldest value, the first of the oldest on a tie.
pub open spec fn is_oldest(s: Seq<StoredValue>, i: int) -> bool {
    &&& 0 <= i < s.len()
    &&& forall|j: int| 0 <= j < s.len() ==> s[i].stored_at.0 <= #[trigger] s[j].stored_at.0
    &&& forall|j: int| 0 <= j < i ==> s[i].stored_at.0 < #[trigger] s[j].stored_at.0
}

/// Where a value from `publisher` stands, or -1.
pub open spec fn publisher_position(s: Seq<StoredValue>, publisher: NodeId) -> int {
    if exists|i: int| 0 <= i < s.len() && s[i].publisher == publisher {
        choose|i: int| 0 <= i < s.len() && s[i].publisher == publisher
    } else {
        -1
    }
}

/// The values of one key after storing `v`: it replaces the value of the
/// same publisher; else it is appended, after the oldest value leaves a full list.
pub open spec fn stored_after(old_values: Seq<StoredValue>, new_values: Seq<StoredValue>, v: StoredValue) -> bool {
    let p = publisher_position(old_values, v.publisher);
    if p >= 0 {
        new_values == old_values.update(p, v)
    } else if old_values.len() >= MAX_VALUES_PER_KEY {
        exists|i: int| is_oldest(old_values, i) && new_values == old_values.remove(i).push(v)
    } else {
        new_values == old_values.push(v)
    }
}

/// The values under one key.
#[derive(Debug)]
pub struct StorageSlot {
    pub key: [u8; 32],
    pub values: Vec<StoredValue>,
}

/// Key-value store of the DHT, with at most `max_keys` keys.
#[derive(Debug)]
pub struct DHTStorage {
    slots: Vec<StorageSlot>,
    max_keys: usize,
}

/// Errors of the store.
#[derive(Debug, Clone, Copy, PartialEq, Eq, Structural)]
pub enum StorageError {
    StorageFull,
    ValueTooLarge,
    InvalidSignature,
}

/// Counts over the store.
#[derive(Debug, Clone, Copy, PartialEq, Eq, Structural)]
pub struct StorageStats {
    pub total_keys: usize,
    pub total_values: usize,
    pub capacity: usize,
}

/// Total number of values over the slots.
pub open spec fn value_total(slots: Seq<StorageSlot>) -> nat
    decreases slots.len(),
{
    if slots.len() == 0 {
        0
    } else {
        value_total(slots.drop_last()) + slots.last().values@.len()
    }
}

impl DHTStorage {
    pub closed spec fn slot_seq(&self) -> Seq<StorageSlot> {
        self.slots@
    }

    pub closed spec fn max_keys_spec(&self) -> nat {
        self.max_keys as nat
    }

    /// `r` is what reading `key` at `now` gives: `None` where no value is
    /// unexpired, else copies of the unexpired values in order.
    pub open spec fn read_result(&self, key: [u8; 32], now: Timestamp, r: Option<Vec<StoredValue>>) -> bool {
        let live = self.values_of(key).filter(|x: StoredValue| !x.expired_at(now));
        &&& (r is None <==> live.len() == 0)
        &&& (r matches Some(v) ==> v@.len() == live.len() && forall|j: int|
            0 <= j < v@.len() ==> same_value(#[trigger] v@[j], live[j]))
    }

    /// Whether `key` has a slot.
    pub open spec fn has_key(&self, key: [u8; 32]) -> bool {
        exists|i: int| 0 <= i < self.slot_seq().len() && #[trigger] self.slot_seq()[i].key == key
    }

    /// The values stored under `key`, empty where it has none.
    pub open spec fn values_of(&self, key: [u8; 32]) -> Seq<StoredValue> {
        if self.has_key(key) {
            let i = choose|i: int| 0 <= i < self.slot_seq().len() && #[trigger] self.slot_seq()[i].key == key;
            self.slot_seq()[i].values@
        } else {
            Seq::empty()
        }
    }

    /// Distinct keys, at most `max_keys`; per key a non-empty list of at
    /// most `MAX_VALUES_PER_KEY` values with distinct publishers.
    pub open spec fn wf(&self) -> bool {
        &&& self.slot_seq().len() <= self.max_keys_spec()
        &&& forall|i: int, j: int| 0 <= i < j < self.slot_seq().len() ==> self.slot_seq()[i].key != self.slot_seq()[j].key
        &&& forall|i: int| 0 <= i < self.slot_seq().len() ==> #[trigger] self.slot_seq()[i].values@.len() <= MAX_VALUES_PER_KEY
        &&& forall|i: int| 0 <= i < self.slot_seq().len() ==> #[trigger] self.slot_seq()[i].values@.len() > 0
        &&& forall|i: int| 0 <= i < self.slot_seq().len() ==> distinct_publishers(#[trigger] self.slot_seq()[i].values@)
    }

    pub fn new(max_keys: usize) -> (r: DHTStorage)
        ensures
            r.wf(),
            r.slot_seq().len() == 0,
            r.max_keys_spec() == max_keys,
    {
        DHTStorage { slots: Vec::new(), max_keys }
    }

    fn position(&self, key: &[u8; 32]) -> (r: Option<usize>)
        ensures
            r matches Some(i) ==> i < self.slots@.len() && self.slots@[i as int].key == *key,
            r is None ==> forall|i: int| 0 <= i < self.slots@.len() ==> self.slots@[i].key != *key,
    {
        let mut i: usize = 0;
        while i < self.slots.len()
            invariant
                0 <= i <= self.slots@.len(),
                forall|j: int| 0 <= j < i ==> self.slots@[j].key != *key,
            decreases self.slots@.len() - i,
        {
            if crate::node_id::bytes32_equal(&self.slots[i].key, key) {
                return Some(i);
            }
            i = i + 1;
        }
        None
    }

    /// Stores `value` under `key`. A key not yet present needs room for one
    /// more key, else `StorageFull` and nothing changes. The value replaces
    /// one of the same publisher; else, on a full list the oldest value
    /// leaves, and the value is appended.
    pub fn store(&mut self, key: [u8; 32], value: StoredValue) -> (r: Result<(), StorageError>)
        requires
            old(self).wf(),
        ensures
            final(self).wf(),
            final(self).max_keys_spec() == old(self).max_keys_spec(),
            !old(self).has_key(key) && old(self).slot_seq().len() >= old(self).max_keys_spec() ==> r == Err::<
                (),
                StorageError,
            >(StorageError::StorageFull) && final(self).slot_seq() == old(self).slot_seq(),
            !(!old(self).has_key(key) && old(self).slot_seq().len() >= old(self).max_keys_spec()) ==> r is Ok
                && final(self).has_key(key) && stored_after(old(self).values_of(key), final(self).values_of(key), value),
            forall|k: [u8; 32]| k != key ==> #[trigger] final(self).has_key(k) == old(self).has_key(k),
            forall|k: [u8; 32]| k != key ==> #[trigger] final(self).values_of(k) == old(self).values_of(k),
            store_outcome(*old(self), *final(self), key, value, r is Ok),
    {
        match self.position(&key) {
            None => {
                if self.slots.len() >= self.max_keys {
                    proof {
                        assert(!old(self).has_key(key));
                    }
                    return Err(StorageError::StorageFull);
                }
                let ghost before = self.slots@;
                let ghost v = value;
                let mut values: Vec<StoredValue> = Vec::new();
                values.push(value);
                self.slots.push(StorageSlot { key, values });
                proof {
                    let n = before.len();
                    assert(self.slots@[n as int].key == key);
                    assert(!old(self).has_key(key));
                    assert(self.values_of(key) == seq![v]) by {
                        let i = choose|i: int| 0 <= i < self.slot_seq().len() && #[trigger] self.slot_seq()[i].key == key;
                        if i != n {
                            assert(before[i].key == key);
                        }
                    }
                    assert(old(self).values_of(key) == Seq::<StoredValue>::empty());
                    assert(publisher_position(Seq::<StoredValue>::empty(), v.publisher) == -1);
                    assert(seq![v] =~= Seq::<StoredValue>::empty().push(v));
                    assert forall|k: [u8; 32]| k != key implies self.has_key(k) == old(self).has_key(k) && #[trigger] self.values_of(k)
                        == old(self).values_of(k) by {
                        if old(self).has_key(k) {
                            let q = choose|q: int| 0 <= q < old(self).slot_seq().len() && #[trigger] old(self).slot_seq()[q].key == k;
                            assert(self.slot_seq()[q].key == k);
                            let q2 = choose|q2: int| 0 <= q2 < self.slot_seq().len() && #[trigger] self.slot_seq()[q2].key == k;
                            if q2 != q {
                                assert(q2 < n);
                                assert(before[q2].key != before[q].key || q2 == q);
                            }
                        }
                        if self.has_key(k) {
                            let q2 = choose|q2: int| 0 <= q2 < self.slot_seq().len() && #[trigger] self.slot_seq()[q2].key == k;
                            assert(q2 != n);
                            assert(old(self).slot_seq()[q2].key == k);
                        }
                    }
                    assert forall|k: [u8; 32]| k != key implies #[trigger] self.has_key(k) == old(self).has_key(k) by {
                        if old(self).has_key(k) {
                            let q = choose|q: int| 0 <= q < old(self).slot_seq().len() && #[trigger] old(self).slot_seq()[q].key == k;
                            assert(self.slot_seq()[q].key == k);
                        }
                        if self.has_key(k) {
                            let q2 = choose|q2: int| 0 <= q2 < self.slot_seq().len() && #[trigger] self.slot_seq()[q2].key == k;
                            assert(q2 != n);
                            assert(old(self).slot_seq()[q2].key == k);
                        }
                    }
                    assert forall|a: int, b: int| 0 <= a < b < self.slot_seq().len() implies self.slot_seq()[a].key != self.slot_seq()[b].key by {
                        if b == n {
                            assert(before[a].key != key);
                        }
                    }
                    assert forall|a: int| 0 <= a < self.slot_seq().len() implies distinct_publishers(#[trigger] self.slot_seq()[a].values@) by {
                        if a < n {
                            assert(self.slot_seq()[a] == before[a]);
                        }
                    }
                }
                Ok(())
            },
            Some(i) => {
                let ghost before = self.slots@;
                let ghost old_values = before[i as int].values@;
                let ghost v = value;
                proof {
                    assert(old(self).values_of(key) == old_values) by {
                        let q = choose|q: int| 0 <= q < old(self).slot_seq().len() && #[trigger] old(self).slot_seq()[q].key == key;
                        if q != i {
                            assert(before[q].key != before[i as int].key);
                        }
                    }
                }
                let slot = &mut self.slots[i];
                match publisher_index(&slot.values, &value.publisher) {
                    Some(p) => {
                        slot.values.set(p, value);
                        proof {
                            assert(publisher_position(old_values, v.publisher) == p) by {
                                let q = publisher_position(old_values, v.publisher);
                                if q != p {
                                    assert(old_values[q].publisher == old_values[p as int].publisher);
                                }
                            }
                        }
                    },
                    None => {
                        if slot.values.len() >= MAX_VALUES_PER_KEY {
                            let oldest = oldest_index(&slot.values);
                            slot.values.remove(oldest);
                        }
                        slot.values.push(value);
                    },
                }
                proof {
                    let new_values = self.slots@[i as int].values@;
                    assert(self.slots@ == before.update(i as int, self.slots@[i as int]));
                    assert(self.slot_seq()[i as int].key == key);
                    assert(self.values_of(key) == new_values) by {
                        let q = choose|q: int| 0 <= q < self.slot_seq().len() && #[trigger] self.slot_seq()[q].key == key;
                        if q != i {
                            assert(before[q].key != before[i as int].key);
                        }
                    }
                    assert(distinct_publishers(new_values)) by {
                        lemma_store_keeps_distinct(old_values, new_values, v);
                    }
                    assert forall|k: [u8; 32]| k != key implies self.has_key(k) == old(self).has_key(k) && #[trigger] self.values_of(k)
                        == old(self).values_of(k) by {
                        if old(self).has_key(k) {
                            let q = choose|q: int| 0 <= q < old(self).slot_seq().len() && #[trigger] old(self).slot_seq()[q].key == k;
                            assert(q != i);
                            assert(self.slot_seq()[q].key == k);
                            let q2 = choose|q2: int| 0 <= q2 < self.slot_seq().len() && #[trigger] self.slot_seq()[q2].key == k;
                            assert(q2 != i);
                            if q2 != q {
                                assert(before[q2].key == k);
                                if q2 < q {
                                    assert(before[q2].key != before[q].key);
                                } else {
                                    assert(before[q].key != before[q2].key);
                                }
                            }
                        }
                        if self.has_key(k) {
                            let q2 = choose|q2: int| 0 <= q2 < self.slot_seq().len() && #[trigger] self.slot_seq()[q2].key == k;
                            assert(q2 != i);
                            assert(old(self).slot_seq()[q2].key == k);
                        }
                    }
                    assert forall|k: [u8; 32]| k != key implies #[trigger] self.has_key(k) == old(self).has_key(k) by {
                        if old(self).has_key(k) {
                            let q = choose|q: int| 0 <= q < old(self).slot_seq().len() && #[trigger] old(self).slot_seq()[q].key == k;
                            assert(q != i);
                            assert(self.slot_seq()[q].key == k);
                        }
                        if self.has_key(k) {
                            let q2 = choose|q2: int| 0 <= q2 < self.slot_seq().len() && #[trigger] self.slot_seq()[q2].key == k;
                            assert(q2 != i);
                            assert(old(self).slot_seq()[q2].key == k);
                        }
                    }
                    assert forall|a: int, b: int| 0 <= a < b < self.slot_seq().len() implies self.slot_seq()[a].key != self.slot_seq()[b].key by {
                        assert(before[a].key != before[b].key);
                    }
                    assert forall|a: int| 0 <= a < self.slot_seq().len() implies #[trigger] self.slot_seq()[a].values@.len() > 0 by {
                        if a != i {
                            assert(self.slot_seq()[a] == before[a]);
                        }
                    }
                    assert forall|a: int| 0 <= a < self.slot_seq().len() implies #[trigger] self.slot_seq()[a].values@.len() <= MAX_VALUES_PER_KEY by {
                        if a != i {
                            assert(self.slot_seq()[a] == before[a]);
                        }
                    }
                    assert forall|a: int| 0 <= a < self.slot_seq().len() implies distinct_publishers(#[trigger] self.slot_seq()[a].values@) by {
                        if a != i {
                            assert(self.slot_seq()[a] == before[a]);
                        }
                    }
                }
                Ok(())
            },
        }
    }

    /// The values under `key` that are unexpired at `now`; `None` where there are none.
    pub fn get_at(&self, key: &[u8; 32], now: Timestamp) -> (r: Option<Vec<StoredValue>>)
        requires
            self.wf(),
        ensures
            r matches Some(v) ==> v@.len() > 0 && v@.len() == self.values_of(*key).filter(
                |x: StoredValue| !x.expired_at(now),
            ).len(),
            r matches Some(v) ==> forall|j: int| 0 <= j < v@.len() ==> !(#[trigger] v@[j]).expired_at(now),
            r matches Some(v) ==> forall|j: int| 0 <= j < v@.len() ==> same_value(
                #[trigger] v@[j],
                self.values_of(*key).filter(|x: StoredValue| !x.expired_at(now))[j],
            ),
            r is None <==> self.values_of(*key).filter(|x: StoredValue| !x.expired_at(now)).len() == 0,
            self.read_result(*key, now, r),
    {
        match self.position(key) {
            None => {
                proof {
                    assert(!self.has_key(*key));
                    assert(Seq::<StoredValue>::empty().filter(|x: StoredValue| !x.expired_at(now)) =~= Seq::<StoredValue>::empty()) by {
                        reveal(Seq::filter);
                    }
                }
                None
            },
            Some(i) => {
                let values = &self.slots[i].values;
                proof {
                    assert(self.values_of(*key) == values@) by {
                        let q = choose|q: int| 0 <= q < self.slot_seq().len() && #[trigger] self.slot_seq()[q].key == *key;
                        if q != i {
                            assert(self.slots@[q].key != self.slots@[i as int].key);
                        }
                    }
                }
                let mut out: Vec<StoredValue> = Vec::new();
                let mut j: usize = 0;
                while j < values.len()
                    invariant
                        0 <= j <= values@.len(),
                        out@.len() == values@.subrange(0, j as int).filter(|x: StoredValue| !x.expired_at(now)).len(),
                        forall|q: int| 0 <= q < out@.len() ==> !(#[trigger] out@[q]).expired_at(now),
                        forall|q: int| 0 <= q < out@.len() ==> same_value(
                            #[trigger] out@[q],
                            values@.subrange(0, j as int).filter(|x: StoredValue| !x.expired_at(now))[q],
                        ),
                    decreases values@.len() - j,
                {
                    proof {
                        assert(values@.subrange(0, j + 1) =~= values@.subrange(0, j as int).push(values@[j as int]));
                        values@.subrange(0, j as int).lemma_filter_push(values@[j as int], |x: StoredValue| !x.expired_at(now));
                    }
                    let ghost o0 = out@;
                    if !values[j].is_expired_at(now) {
                        out.push(values[j].copy());
                    }
                    proof {
                        let f0 = values@.subrange(0, j as int).filter(|x: StoredValue| !x.expired_at(now));
                        let f1 = values@.subrange(0, j + 1).filter(|x: StoredValue| !x.expired_at(now));
                        assert forall|q: int| 0 <= q < out@.len() implies same_value(#[trigger] out@[q], f1[q]) by {
                            if q < o0.len() {
                                assert(out@[q] == o0[q]);
                                assert(f1[q] == f0[q]);
                            }
                        }
                    }
                    j = j + 1;
                }
                assert(values@.subrange(0, values@.len() as int) =~= values@);
                if out.len() == 0 {
                    None
                } else {
                    Some(out)
                }
            },
        }
    }

    /// `get_at` at the current time.
    pub fn get(&self, key: &[u8; 32]) -> (r: Option<Vec<StoredValue>>)
        requires
            self.wf(),
        ensures
            exists|now: Timestamp| #[trigger] self.read_result(*key, now, r),
    {
        let now = Timestamp::now();
        self.get_at(key, now)
    }

    /// Drops the values expired at `now`, then the keys left empty; returns
    /// how many values left.
    pub fn cleanup_expired_at(&mut self, now: Timestamp) -> (r: usize)
        requires
            old(self).wf(),
        ensures
            final(self).wf(),
            final(self).max_keys_spec() == old(self).max_keys_spec(),
            forall|i: int, j: int|
                0 <= i < final(self).slot_seq().len() && 0 <= j < final(self).slot_seq()[i].values@.len()
                    ==> !(#[trigger] final(self).slot_seq()[i].values@[j]).expired_at(now),
            forall|k: [u8; 32]| #[trigger] final(self).has_key(k) ==> old(self).has_key(k),
            forall|k: [u8; 32]| #[trigger] final(self).has_key(k) <==> (old(self).has_key(k) && live_values(
                old(self).values_of(k),
                now,
            ).len() > 0),
            forall|k: [u8; 32]| #[trigger] final(self).has_key(k) ==> same_values(final(self).values_of(k), live_values(old(self).values_of(k), now)),
            r == cap_usize(expired_from(old(self).slot_seq(), 0, now)),
            cleaned(*old(self), *final(self), now, r),
    {
        let mut kept: Vec<StorageSlot> = Vec::new();
        let mut removed: usize = 0;
        let ghost start = self.slots@;
        let ghost mut ksrc: Seq<int> = Seq::empty();
        while self.slots.len() > 0
            invariant
                start == old(self).slots@,
                self.max_keys == old(self).max_keys,
                start.len() <= self.max_keys,
                self.slots@.len() <= start.len(),
                self.slots@ == start.subrange(0, self.slots@.len() as int),
                forall|a: int, b: int| 0 <= a < b < start.len() ==> start[a].key != start[b].key,
                forall|a: int| 0 <= a < start.len() ==> distinct_publishers(#[trigger] start[a].values@),
                forall|a: int| 0 <= a < start.len() ==> #[trigger] start[a].values@.len() <= MAX_VALUES_PER_KEY,
                ksrc.len() == kept@.len(),
                forall|a: int| 0 <= a < ksrc.len() ==> self.slots@.len() <= #[trigger] ksrc[a] < start.len(),
                forall|a: int, b: int| 0 <= a < b < ksrc.len() ==> ksrc[a] > ksrc[b],
                forall|a: int| 0 <= a < kept@.len() ==> (#[trigger] kept@[a]).key == start[ksrc[a]].key,
                forall|a: int| 0 <= a < kept@.len() ==> #[trigger] kept@[a].values@.len() > 0,
                forall|a: int| 0 <= a < kept@.len() ==> #[trigger] kept@[a].values@.len() <= MAX_VALUES_PER_KEY,
                forall|a: int| 0 <= a < kept@.len() ==> distinct_publishers(#[trigger] kept@[a].values@),
                forall|a: int, j: int|
                    0 <= a < kept@.len() && 0 <= j < kept@[a].values@.len() ==> !(#[trigger] kept@[a].values@[j]).expired_at(now),
                forall|a: int| 0 <= a < kept@.len() ==> same_values((#[trigger] kept@[a]).values@, live_values(start[ksrc[a]].values@, now)),
                forall|q: int| self.slots@.len() <= q < start.len() && live_values(start[q].values@, now).len() > 0 ==> exists|a: int|
                    0 <= a < ksrc.len() && #[trigger] ksrc[a] == q,
                removed == cap_usize(expired_from(start, self.slots@.len() as int, now)),
            decreases self.slots@.len(),
        {
            let ghost m = self.slots@.len();
            let slot = self.slots.pop().unwrap();
            assert(slot == start[m - 1]);
            let ghost old_vals = slot.values@;
            let mut fresh: Vec<StoredValue> = Vec::new();
            let ghost mut src: Seq<int> = Seq::empty();
            let mut j: usize = 0;
            while j < slot.values.len()
                invariant
                    0 <= j <= slot.values@.len(),
                    old_vals == slot.values@,
                    distinct_publishers(old_vals),
                    src.len() == fresh@.len(),
                    forall|q: int| 0 <= q < src.len() ==> 0 <= #[trigger] src[q] < j,
                    forall|q1: int, q2: int| 0 <= q1 < q2 < src.len() ==> src[q1] < src[q2],
                    forall|q: int| 0 <= q < fresh@.len() ==> (#[trigger] fresh@[q]).publisher == old_vals[src[q]].publisher,
                    forall|q: int| 0 <= q < fresh@.len() ==> !(#[trigger] fresh@[q]).expired_at(now),
                    same_values(fresh@, live_values(old_vals.subrange(0, j as int), now)),
                    removed == cap_usize(expired_from(start, m as int, now) + expired_count(old_vals.subrange(0, j as int), now)),
                decreases slot.values@.len() - j,
            {
                let ghost f0 = fresh@;
                proof {
                    assert(old_vals.subrange(0, j + 1) =~= old_vals.subrange(0, j as int).push(old_vals[j as int]));
                    old_vals.subrange(0, j as int).lemma_filter_push(old_vals[j as int], |x: StoredValue| !x.expired_at(now));
                    old_vals.subrange(0, j as int).lemma_filter_push(old_vals[j as int], |x: StoredValue| x.expired_at(now));
                }
                if !slot.values[j].is_expired_at(now) {
                    fresh.push(slot.values[j].copy());
                    proof {
                        src = src.push(j as int);
                        let l1 = live_values(old_vals.subrange(0, j + 1), now);
                        let l0 = live_values(old_vals.subrange(0, j as int), now);
                        assert forall|q: int| 0 <= q < fresh@.len() implies same_value(#[trigger] fresh@[q], l1[q]) by {
                            if q < f0.len() {
                                assert(fresh@[q] == f0[q]);
                                assert(l1[q] == l0[q]);
                            }
                        }
                    }
                } else {
                    removed = removed.saturating_add(1);
                }
                j = j + 1;
            }
            assert(old_vals.subrange(0, old_vals.len() as int) =~= old_vals);
            proof {
                assert forall|x: int, y: int| 0 <= x < y < fresh@.len() implies fresh@[x].publisher != fresh@[y].publisher by {
                    assert(src[x] < src[y]);
                    assert(old_vals[src[x]].publisher != old_vals[src[y]].publisher);
                }
                assert(fresh@.len() <= old_vals.len()) by {
                    lemma_increasing_bounded(src, old_vals.len() as int);
                }
            }
            let ghost k0 = kept@;
            let ghost ks0 = ksrc;
            if fresh.len() > 0 {
                kept.push(StorageSlot { key: slot.key, values: fresh });
                proof {
                    ksrc = ksrc.push(m - 1);
                    assert forall|a: int| 0 <= a < kept@.len() implies same_values((#[trigger] kept@[a]).values@, live_values(start[ksrc[a]].values@, now)) by {
                        if a < k0.len() {
                            assert(kept@[a] == k0[a]);
                            assert(ksrc[a] == ks0[a]);
                        }
                    }
                }
            }
            proof {
                assert(self.slots@ =~= start.subrange(0, self.slots@.len() as int));
                assert forall|q: int| self.slots@.len() <= q < start.len() && live_values(start[q].values@, now).len() > 0 implies exists|a: int|
                    0 <= a < ksrc.len() && #[trigger] ksrc[a] == q by {
                    if q == m - 1 {
                        assert(ksrc[ksrc.len() - 1] == q);
                    } else {
                        let a = choose|a: int| 0 <= a < ks0.len() && #[trigger] ks0[a] == q;
                        assert(ksrc[a] == q);
                    }
                }
            }
        }
        proof {
            assert forall|a: int, b: int| 0 <= a < b < kept@.len() implies kept@[a].key != kept@[b].key by {
                assert(ksrc[a] > ksrc[b]);
                assert(start[ksrc[b]].key != start[ksrc[a]].key);
            }
            assert(kept@.len() <= start.len()) by {
                let rev = Seq::new(ksrc.len(), |q: int| ksrc[ksrc.len() - 1 - q]);
                lemma_increasing_bounded(rev, start.len() as int);
            }
        }
        self.slots = kept;
        proof {
            assert forall|k: [u8; 32]| #[trigger] self.has_key(k) implies old(self).has_key(k) by {
                let a = choose|a: int| 0 <= a < self.slot_seq().len() && #[trigger] self.slot_seq()[a].key == k;
                assert(old(self).slot_seq()[ksrc[a]].key == k);
            }
            assert forall|k: [u8; 32]| #[trigger] self.has_key(k) implies same_values(self.values_of(k), live_values(old(self).values_of(k), now))
                && live_values(old(self).values_of(k), now).len() > 0 by {
                let a = choose|a: int| 0 <= a < self.slot_seq().len() && #[trigger] self.slot_seq()[a].key == k;
                let q = ksrc[a];
                assert(old(self).slot_seq()[q].key == k);
                assert(old(self).values_of(k) == start[q].values@) by {
                    let q2 = choose|q2: int| 0 <= q2 < old(self).slot_seq().len() && #[trigger] old(self).slot_seq()[q2].key == k;
                    if q2 != q {
                        if q2 < q { assert(start[q2].key != start[q].key); } else { assert(start[q].key != start[q2].key); }
                    }
                }
                assert(self.values_of(k) == kept@[a].values@) by {
                    let a2 = choose|a2: int| 0 <= a2 < self.slot_seq().len() && #[trigger] self.slot_seq()[a2].key == k;
                    if a2 != a {
                        if a2 < a { assert(kept@[a2].key != kept@[a].key); } else { assert(kept@[a].key != kept@[a2].key); }
                    }
                }
            }
            assert forall|k: [u8; 32]| old(self).has_key(k) && live_values(old(self).values_of(k), now).len() > 0 implies #[trigger] self.has_key(k) by {
                let q = choose|q: int| 0 <= q < old(self).slot_seq().len() && #[trigger] old(self).slot_seq()[q].key == k;
                assert(old(self).values_of(k) == start[q].values@);
                let a = choose|a: int| 0 <= a < ksrc.len() && #[trigger] ksrc[a] == q;
                assert(self.slot_seq()[a].key == k);
            }
        }
        removed
    }

    /// `cleanup_expired_at` at the current time.
    pub fn cleanup_expired(&mut self) -> (r: usize)
        requires
            old(self).wf(),
        ensures
            final(self).wf(),
            exists|now: Timestamp| #[trigger] cleaned(*old(self), *final(self), now, r),
    {
        let now = Timestamp::now();
        self.cleanup_expired_at(now)
    }

    pub fn key_count(&self) -> (r: usize)
        ensures
            r == self.slot_seq().len(),
    {
        self.slots.len()
    }

    /// Values over all keys, capped at `usize::MAX`.
    pub fn value_count(&self) -> (r: usize)
        ensures
            r == if value_total(self.slot_seq()) > usize::MAX { usize::MAX as nat } else { value_total(self.slot_seq()) },
    {
        let mut total: usize = 0;
        let mut i: usize = 0;
        while i < self.slots.len()
            invariant
                0 <= i <= self.slots@.len(),
                total == if value_total(self.slots@.subrange(0, i as int)) > usize::MAX {
                    usize::MAX as nat
                } else {
                    value_total(self.slots@.subrange(0, i as int))
                },
            decreases self.slots@.len() - i,
        {
            proof {
                assert(self.slots@.subrange(0, i + 1).drop_last() =~= self.slots@.subrange(0, i as int));
            }
            total = total.saturating_add(self.slots[i].values.len());
            i = i + 1;
        }
        assert(self.slots@.subrange(0, self.slots@.len() as int) =~= self.slots@);
        total
    }

    pub fn stats(&self) -> (r: StorageStats)
        ensures
            r.total_keys == self.slot_seq().len(),
            r.capacity == self.max_keys_spec(),
    {
        StorageStats { total_keys: self.key_count(), total_values: self.value_count(), capacity: self.max_keys }
    }

    /// Removes `key` and its values.
    pub fn remove(&mut self, key: &[u8; 32]) -> (r: Option<Vec<StoredValue>>)
        requires
            old(self).wf(),
        ensures
            final(self).wf(),
            !final(self).has_key(*key),
            r is Some <==> old(self).has_key(*key),
            r matches Some(v) ==> v@ == old(self).values_of(*key),
            forall|k: [u8; 32]| k != *key ==> #[trigger] final(self).has_key(k) == old(self).has_key(k),
    {
        match self.position(key) {
            None => None,
            Some(i) => {
                let ghost before = self.slots@;
                let slot = self.slots.remove(i);
                proof {
                    assert(old(self).values_of(*key) == slot.values@) by {
                        let q = choose|q: int| 0 <= q < old(self).slot_seq().len() && #[trigger] old(self).slot_seq()[q].key == *key;
                        if q != i {
                            assert(before[q].key != before[i as int].key);
                        }
                    }
                    assert forall|a: int| 0 <= a < self.slots@.len() implies self.slots@[a] == before[if a < i { a } else { a + 1 }] by {}
                    assert forall|k: [u8; 32]| k != *key implies #[trigger] self.has_key(k) == old(self).has_key(k) by {
                        if old(self).has_key(k) {
                            let q = choose|q: int| 0 <= q < before.len() && #[trigger] before[q].key == k;
                            assert(q != i);
                            let nq = if q < i { q } else { q - 1 };
                            assert(self.slot_seq()[nq].key == k);
                        }
                    }
                    if self.has_key(*key) {
                        let q = choose|q: int| 0 <= q < self.slot_seq().len() && #[trigger] self.slot_seq()[q].key == *key;
                        let oq = if q < i { q } else { q + 1 };
                        assert(before[oq].key == before[i as int].key);
                    }
                    assert forall|a: int, b: int| 0 <= a < b < self.slot_seq().len() implies self.slot_seq()[a].key != self.slot_seq()[b].key by {
                        let oa = if a < i { a } else { a + 1 };
                        let ob = if b < i { b } else { b + 1 };
                        assert(before[oa].key != before[ob].key);
                    }
                    assert forall|a: int| 0 <= a < self.slot_seq().len() implies #[trigger] self.slot_seq()[a].values@.len() > 0 by {
                        let oa = if a < i { a } else { a + 1 };
                        assert(before[oa].values@.len() > 0);
                    }
                    assert forall|a: int| 0 <= a < self.slot_seq().len() implies #[trigger] self.slot_seq()[a].values@.len() <= MAX_VALUES_PER_KEY by {
                        let oa = if a < i { a } else { a + 1 };
                        assert(before[oa].values@.len() <= MAX_VALUES_PER_KEY);
                    }
                    assert forall|a: int| 0 <= a < self.slot_seq().len() implies distinct_publishers(#[trigger] self.slot_seq()[a].values@) by {
                        let oa = if a < i { a } else { a + 1 };
                        assert(distinct_publishers(before[oa].values@));
                    }
                }
                Some(slot.values)
            },
        }
    }
}

/// Index of the value from `publisher`.
fn publisher_index(values: &Vec<StoredValue>, publisher: &NodeId) -> (r: Option<usize>)
    ensures
        r matches Some(p) ==> p < values@.len() && values@[p as int].publisher == *publisher,
        r is None ==> forall|j: int| 0 <= j < values@.len() ==> values@[j].publisher != *publisher,
{
    let mut i: usize = 0;
    while i < values.len()
        invariant
            0 <= i <= values@.len(),
            forall|j: int| 0 <= j < i ==> values@[j].publisher != *publisher,
        decreases values@.len() - i,
    {
        if values[i].publisher == *publisher {
            return Some(i);
        }
        i = i + 1;
    }
    None
}

/// Index of the oldest value, the first on a tie.
fn oldest_index(values: &Vec<StoredValue>) -> (r: usize)
    requires
        values@.len() > 0,
    ensures
        is_oldest(values@, r as int),
{
    let mut best: usize = 0;
    let mut i: usize = 1;
    while i < values.len()
        invariant
            1 <= i <= values@.len(),
            best < i,
            forall|j: int| 0 <= j < i ==> values@[best as int].stored_at.0 <= #[trigger] values@[j].stored_at.0,
            forall|j: int| 0 <= j < best ==> values@[best as int].stored_at.0 < #[trigger] values@[j].stored_at.0,
        decreases values@.len() - i,
    {
        if values[i].stored_at.0 < values[best].stored_at.0 {
            best = i;
        }
        i = i + 1;
    }
    best
}

/// A strictly increasing list of indices below `n` has at most `n` entries.
proof fn lemma_increasing_bounded(src: Seq<int>, n: int)
    requires
        0 <= n,
        forall|q: int| 0 <= q < src.len() ==> 0 <= #[trigger] src[q] < n,
        forall|q1: int, q2: int| 0 <= q1 < q2 < src.len() ==> src[q1] < src[q2],
    ensures
        src.len() <= n,
    decreases src.len(),
{
    if src.len() > 0 {
        let rest = src.drop_last();
        assert forall|q: int| 0 <= q < rest.len() implies 0 <= #[trigger] rest[q] < src.last() by {
            assert(src[q] < src[src.len() - 1]);
        }
        assert forall|q1: int, q2: int| 0 <= q1 < q2 < rest.len() implies rest[q1] < rest[q2] by {
            assert(rest[q1] == src[q1] && rest[q2] == src[q2]);
        }
        lemma_increasing_bounded(rest, src.last());
        assert(src.last() == src[src.len() - 1]);
        assert(0 <= src[src.len() - 1]);
        assert(rest.len() + 1 == src.len());
        assert(src[src.len() - 1] < n);
    }
}

/// Storing keeps the publishers of a key distinct.
proof fn lemma_store_keeps_distinct(old_values: Seq<StoredValue>, new_values: Seq<StoredValue>, v: StoredValue)
    requires
        distinct_publishers(old_values),
        stored_after(old_values, new_values, v),
    ensures
        distinct_publishers(new_values),
{
    let p = publisher_position(old_values, v.publisher);
    if p >= 0 {
        assert forall|i: int, j: int| 0 <= i < j < new_values.len() implies new_values[i].publisher != new_values[j].publisher by {
            if i == p {
                assert(old_values[p].publisher == v.publisher);
            } else if j == p {
                assert(old_values[p].publisher == v.publisher);
            }
        }
    } else if old_values.len() >= MAX_VALUES_PER_KEY {
        let k = choose|k: int| is_oldest(old_values, k) && new_values == old_values.remove(k).push(v);
        assert forall|i: int, j: int| 0 <= i < j < new_values.len() implies new_values[i].publisher != new_values[j].publisher by {
            let oi = if i < k { i } else { i + 1 };
            if j == new_values.len() - 1 {
                assert(new_values[i] == old_values[oi]);
            } else {
                let oj = if j < k { j } else { j + 1 };
                assert(new_values[i] == old_values[oi]);
                assert(new_values[j] == old_values[oj]);
            }
        }
    } else {
        assert forall|i: int, j: int| 0 <= i < j < new_values.len() implies new_values[i].publisher != new_values[j].publisher by {
            if j == new_values.len() - 1 {
                assert(new_values[i] == old_values[i]);
            }
        }
    }
}

} // verus!
