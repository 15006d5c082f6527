//! Price records keyed by (asset index, timestamp bucket), with eviction of
//! the record that falls out of the retention window.
use std::collections::HashMap;
use vstd::prelude::*;
use crate::key_codec::{price_key, lemma_key_round_trip, U128Helper};

verus! {

broadcast use vstd::std_specs::hash::group_hash_axioms;

/// `t` rounded down to a multiple of `resolution`.
pub open spec fn normalize(t: u64, resolution: u64) -> u64
    recommends
        resolution > 0,
{
    (t - t % resolution) as u64
}

/// Normalizing is idempotent and never moves a timestamp forward.
pub proof fn lemma_normalize_idempotent(t: u64, resolution: u64)
    requires
        resolution > 0,
    ensures
        normalize(normalize(t, resolution), resolution) == normalize(t, resolution),
        normalize(t, resolution) <= t,
{
    let r = resolution as int;
    let n = t as int - t as int % r;
    assert(0 <= t as int % r <= t) by (nonlinear_arith)
        requires
            r > 0,
    ;
    assert(n % r == 0) by (nonlinear_arith)
        requires
            n == t as int - t as int % r,
            r > 0,
    ;
}

/// The bucket a timestamp falls in: the timestamp rounded down to a
/// multiple of `resolution`.
pub fn get_normalized_timestamp(timestamp: u64, resolution: u64) -> (r: u64)
    requires
        resolution > 0,
    ensures
        r == normalize(timestamp, resolution),
        r <= timestamp,
        r % resolution == 0,
{
    assert(timestamp % resolution <= timestamp) by (nonlinear_arith)
        requires
            resolution > 0,
    ;
    let r = timestamp - timestamp % resolution;
    assert(r % resolution == 0) by (nonlinear_arith)
        requires
            r == timestamp - timestamp % resolution,
            resolution > 0,
    ;
    r
}

/// Whether `timestamp` lies on the `resolution` grid.
pub fn is_valid_timestamp(timestamp: u64, resolution: u64) -> (r: bool)
    requires
        resolution > 0,
    ensures
        r == (timestamp % resolution == 0),
{
    timestamp % resolution == 0
}

/// The storage key of the record of asset `index` at `timestamp`.
pub open spec fn record_key(index: u8, timestamp: u64) -> u128 {
    price_key(timestamp, index) as u128
}

/// The price stored for asset `index` at `timestamp`, if any.
pub open spec fn record(m: Map<u128, i128>, index: u8, timestamp: u64) -> Option<i128> {
    if m.contains_key(record_key(index, timestamp)) {
        Some(m[record_key(index, timestamp)])
    } else {
        None
    }
}

/// The records after storing `price` for asset `index` at `timestamp`: the
/// record one retention period older for the same asset is dropped.
pub open spec fn put_record(
    m: Map<u128, i128>,
    index: u8,
    price: i128,
    timestamp: u64,
    period: u64,
) -> Map<u128, i128> {
    let stored = m.insert(record_key(index, timestamp), price);
    if period > 0 && timestamp >= period {
        stored.remove(record_key(index, (timestamp - period) as u64))
    } else {
        stored
    }
}

/// Every stored price is positive.
pub open spec fn positive_records(m: Map<u128, i128>) -> bool {
    forall|k: u128| m.contains_key(k) ==> m[k] > 0
}

/// The map that a list of (key, price) entries describes; a later entry for
/// a key wins.
pub open spec fn entries_map(s: Seq<(u128, i128)>) -> Map<u128, i128>
    decreases s.len(),
{
    if s.len() == 0 {
        Map::empty()
    } else {
        entries_map(s.drop_last()).insert(s.last().0, s.last().1)
    }
}

/// No key stands twice in `s`.
pub open spec fn distinct_keys(s: Seq<u128>) -> bool {
    forall|i: int, j: int| 0 <= i < j < s.len() ==> s[i] != s[j]
}

/// The price records and the most recent timestamp written.
pub struct PriceLedger {
    records: HashMap<u128, i128>,
    keys: Vec<u128>,
    last_timestamp: u64,
}

impl PriceLedger {
    /// The stored records, by key.
    pub closed spec fn records(&self) -> Map<u128, i128> {
        self.records@
    }

    /// The most recent timestamp at which any price was written; 0 when none
    /// was.
    pub closed spec fn last(&self) -> u64 {
        self.last_timestamp
    }

    /// The key list names each stored key once.
    pub closed spec fn keys_listed(&self) -> bool {
        &&& distinct_keys(self.keys@)
        &&& forall|k: u128| self.records@.contains_key(k) <==> self.keys@.contains(k)
    }

    /// Every stored price is positive.
    pub open spec fn wf(&self) -> bool {
        positive_records(self.records()) && self.keys_listed()
    }

    /// A ledger with no records.
    pub fn new() -> (r: PriceLedger)
        ensures
            r.wf(),
            r.records() == Map::<u128, i128>::empty(),
            r.last() == 0,
    {
        let r = PriceLedger { records: HashMap::new(), keys: Vec::new(), last_timestamp: 0 };
        assert(r.records@ =~= Map::<u128, i128>::empty());
        r
    }

    /// The price of asset `index` at exactly `timestamp`.
    pub fn get(&self, index: u8, timestamp: u64) -> (r: Option<i128>)
        ensures
            r == record(self.records(), index, timestamp),
    {
        proof {
            lemma_key_round_trip(timestamp, index);
        }
        let key = U128Helper::encode_to_u128(timestamp, index);
        match self.records.get(&key) {
            Some(p) => Some(*p),
            None => None,
        }
    }

    /// Stores `price` under `key`.
    fn insert_key(&mut self, key: u128, price: i128)
        requires
            old(self).wf(),
            price > 0,
        ensures
            final(self).wf(),
            final(self).records() == old(self).records().insert(key, price),
            final(self).last() == old(self).last(),
    {
        let ghost before = self.keys@;
        let prev = self.records.insert(key, price);
        if prev.is_none() {
            self.keys.push(key);
            assert forall|i: int, j: int| 0 <= i < j < self.keys@.len() implies self.keys@[i]
                != self.keys@[j] by {
                if j == before.len() {
                    assert(before.contains(before[i]));
                }
            }
            assert forall|k: u128| self.records@.contains_key(k) <==> self.keys@.contains(k) by {
                if before.contains(k) {
                    let i = choose|i: int| 0 <= i < before.len() && before[i] == k;
                    assert(self.keys@[i] == k);
                }
                if self.keys@.contains(k) && k != key {
                    let i = choose|i: int| 0 <= i < self.keys@.len() && self.keys@[i] == k;
                    assert(before[i] == k);
                }
                if k == key {
                    assert(self.keys@[before.len() as int] == key);
                }
            }
        }
    }

    /// Drops the record under `key`, if there is one.
    fn remove_key(&mut self, key: u128)
        requires
            old(self).wf(),
        ensures
            final(self).wf(),
            final(self).records() == old(self).records().remove(key),
            final(self).last() == old(self).last(),
    {
        let ghost before = self.keys@;
        let removed = self.records.remove(&key);
        if removed.is_some() {
            let mut i: usize = 0;
            while i < self.keys.len() && self.keys[i] != key
                invariant
                    self.keys@ == before,
                    before.contains(key),
                    i <= before.len(),
                    forall|j: int| 0 <= j < i ==> before[j] != key,
                decreases before.len() - i,
            {
                i = i + 1;
            }
            if i == self.keys.len() {
                proof {
                    let w = choose|j: int| 0 <= j < before.len() && before[j] == key;
                    assert(before[w] != key);
                }
            }
            self.keys.remove(i);
            let ghost after = self.keys@;
            assert(after =~= before.remove(i as int));
            assert forall|a: int, b: int| 0 <= a < b < after.len() implies after[a] != after[b] by {
                let a0 = if a < i { a } else { a + 1 };
                let b0 = if b < i { b } else { b + 1 };
                assert(after[a] == before[a0]);
                assert(after[b] == before[b0]);
            }
            assert forall|k: u128| self.records@.contains_key(k) <==> after.contains(k) by {
                if after.contains(k) {
                    let j = choose|j: int| 0 <= j < after.len() && after[j] == k;
                    let j0 = if j < i { j } else { j + 1 };
                    assert(before[j0] == k);
                    assert(j0 != i);
                    assert(before.contains(k));
                }
                if k != key && before.contains(k) {
                    let j = choose|j: int| 0 <= j < before.len() && before[j] == k;
                    assert(j != i);
                    let j1 = if j < i { j } else { j - 1 };
                    assert(after[j1] == k);
                }
            }
        } else {
            assert(self.records@ =~= old(self).records@.remove(key));
        }
    }

    /// Stores `price` for asset `index` at `timestamp` and drops the record
    /// that is `period` older.
    pub fn put(&mut self, index: u8, price: i128, timestamp: u64, period: u64)
        requires
            old(self).wf(),
            price > 0,
        ensures
            final(self).wf(),
            final(self).records() == put_record(old(self).records(), index, price, timestamp, period),
            final(self).last() == old(self).last(),
    {
        proof {
            lemma_key_round_trip(timestamp, index);
        }
        let key = U128Helper::encode_to_u128(timestamp, index);
        self.insert_key(key, price);
        if period > 0 && timestamp >= period {
            proof {
                lemma_key_round_trip((timestamp - period) as u64, index);
            }
            let stale = U128Helper::encode_to_u128(timestamp - period, index);
            self.remove_key(stale);
        }
    }

    /// The most recent timestamp at which any price was written.
    pub fn last_timestamp(&self) -> (r: u64)
        ensures
            r == self.last(),
    {
        self.last_timestamp
    }

    /// Moves the last-written marker forward to `timestamp` if it is later.
    pub fn touch(&mut self, timestamp: u64)
        requires
            old(self).wf(),
        ensures
            final(self).wf(),
            final(self).records() == old(self).records(),
            final(self).last() == (if timestamp > old(self).last() {
                timestamp
            } else {
                old(self).last()
            }),
    {
        if timestamp > self.last_timestamp {
            self.last_timestamp = timestamp;
        }
    }

    /// Every record as a (key, price) entry, each key once.
    pub fn entries(&self) -> (r: Vec<(u128, i128)>)
        requires
            self.wf(),
        ensures
            entries_map(r@) == self.records(),
            forall|i: int| 0 <= i < r@.len() ==> #[trigger] r@[i].1 > 0,
    {
        let mut out: Vec<(u128, i128)> = Vec::new();
        let mut i: usize = 0;
        while i < self.keys.len()
            invariant
                self.wf(),
                i <= self.keys@.len(),
                out@.len() == i,
                forall|j: int| 0 <= j < i ==> #[trigger] out@[j].0 == self.keys@[j],
                forall|j: int| 0 <= j < i ==> #[trigger] out@[j].1 > 0,
                entries_map(out@) == self.records@.restrict(self.keys@.subrange(0, i as int).to_set()),
            decreases self.keys@.len() - i,
        {
            let key = self.keys[i];
            assert(self.keys@.contains(key));
            let price = match self.records.get(&key) {
                Some(p) => *p,
                None => {
                    assert(false);
                    0
                },
            };
            let ghost prev = out@;
            out.push((key, price));
            assert(out@.drop_last() =~= prev);
            proof {
                let pre = self.keys@.subrange(0, i as int);
                assert(self.keys@.subrange(0, i + 1) =~= pre.push(key));
                pre.lemma_push_to_set_commute(key);
            }
            assert(entries_map(out@) =~= self.records@.restrict(self.keys@.subrange(0, i + 1).to_set()));
            i = i + 1;
        }
        assert(self.keys@.subrange(0, i as int) =~= self.keys@);
        assert(self.keys@.to_set() =~= self.records@.dom());
        assert(entries_map(out@) =~= self.records@);
        out
    }

    /// A ledger holding the records that `entries` describes and the
    /// last-written marker `last`; `None` when a price is not positive.
    pub fn restore(entries: &Vec<(u128, i128)>, last: u64) -> (r: Option<PriceLedger>)
        ensures
            match r {
                Some(l) => l.wf() && l.records() == entries_map(entries@) && l.last() == last,
                None => exists|i: int| 0 <= i < entries@.len() && #[trigger] entries@[i].1 <= 0,
            },
    {
        let mut l = PriceLedger::new();
        let mut i: usize = 0;
        while i < entries.len()
            invariant
                l.wf(),
                i <= entries@.len(),
                l.records() == entries_map(entries@.take(i as int)),
                l.last() == 0,
            decreases entries@.len() - i,
        {
            let (key, price) = entries[i];
            if price <= 0 {
                return None;
            }
            assert(entries@.take(i + 1).drop_last() =~= entries@.take(i as int));
            l.insert_key(key, price);
            i = i + 1;
        }
        assert(entries@.take(i as int) =~= entries@);
        l.last_timestamp = last;
        Some(l)
    }
}

} // verus!
