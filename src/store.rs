//! The monitor's state: the deduplicating entry store, duplicate weights, the
//! last sampled rate and the burst flag.
use std::collections::HashMap;
use vstd::prelude::*;

use crate::entry::{Log, LogView, TypeOfLog};

verus! {

broadcast use vstd::std_specs::hash::group_hash_axioms;

/// A sampled rate above this many entries per second is a burst.
pub const BURST_THRESHOLD: usize = 5000;

/// How many more entries the store makes room for after a burst.
pub const BURST_RESERVE: usize = 5000;

/// How often an exact duplicate of a stored entry with this message came in.
#[derive(Debug)]
pub struct MessageWeight {
    pub message: String,
    pub count: u64,
}

/// The mathematical value of a `LogManager`.
pub struct MonitorView {
    /// Stored entries in insertion order, no two the same.
    pub entries: Seq<LogView>,
    /// For each message that had a duplicate, how many duplicates came in.
    pub weights: Map<Seq<char>, nat>,
    /// The rate of the last sample.
    pub last_rate: nat,
    /// Whether a burst is pending, and its rate.
    pub burst: (bool, nat),
}

/// The weight of `message`: zero when no duplicate of it came in.
pub open spec fn weight_of(weights: Map<Seq<char>, nat>, message: Seq<char>) -> nat {
    if weights.contains_key(message) {
        weights[message]
    } else {
        0
    }
}

/// A weight one higher, kept in `u64`.
pub open spec fn bumped(w: nat) -> nat {
    if w < u64::MAX {
        w + 1
    } else {
        w
    }
}

/// The state after ingesting `log`: an entry that is already stored raises its
/// message's weight, any other is appended.
pub open spec fn ingest(v: MonitorView, log: LogView) -> MonitorView {
    if v.entries.contains(log) {
        MonitorView {
            weights: v.weights.insert(log.message, bumped(weight_of(v.weights, log.message))),
            ..v
        }
    } else {
        MonitorView { entries: v.entries.push(log), ..v }
    }
}

/// The state after a sample whose quantum began at count `prev`.
pub open spec fn sampled(v: MonitorView, prev: nat) -> MonitorView {
    let rate = (v.entries.len() - prev) as nat;
    MonitorView {
        last_rate: rate,
        burst: if rate > BURST_THRESHOLD {
            (true, rate)
        } else {
            v.burst
        },
        ..v
    }
}

/// The state after the pending burst, if any, was taken.
pub open spec fn burst_consumed(v: MonitorView) -> MonitorView {
    MonitorView { burst: (false, v.burst.1), ..v }
}

/// What taking the burst yields: its rate when one is pending.
pub open spec fn pending_burst(v: MonitorView) -> Option<nat> {
    if v.burst.0 {
        Some(v.burst.1)
    } else {
        None
    }
}

/// How many entries of `entries` have category `c`.
pub open spec fn count_category(entries: Seq<LogView>, c: TypeOfLog) -> nat
    decreases entries.len(),
{
    if entries.len() == 0 {
        0
    } else {
        count_category(entries.drop_last(), c) + if entries.last().log_type == c {
            1nat
        } else {
            0nat
        }
    }
}

/// Entries per category.
#[derive(Clone, Copy, Debug, PartialEq, Eq, Structural)]
pub struct CategoryCounts {
    pub error: usize,
    pub debug: usize,
    pub info: usize,
    pub uncategorized: usize,
}

/// `counts` holds, for each category, how many of `entries` have it.
pub open spec fn counts_of(counts: CategoryCounts, entries: Seq<LogView>) -> bool {
    &&& counts.error == count_category(entries, TypeOfLog::Error)
    &&& counts.debug == count_category(entries, TypeOfLog::Debug)
    &&& counts.info == count_category(entries, TypeOfLog::Info)
    &&& counts.uncategorized == count_category(entries, TypeOfLog::Uncategorized)
}

/// Every entry falls in exactly one category: the four counts add up to the
/// number of entries.
pub proof fn lemma_categories_partition(entries: Seq<LogView>)
    ensures
        count_category(entries, TypeOfLog::Error) + count_category(entries, TypeOfLog::Debug)
            + count_category(entries, TypeOfLog::Info) + count_category(
            entries,
            TypeOfLog::Uncategorized,
        ) == entries.len(),
    decreases entries.len(),
{
    if entries.len() > 0 {
        lemma_categories_partition(entries.drop_last());
    }
}

/// The monitor state shared by ingestion and reporting.
pub struct LogManager {
    entries: Vec<Log>,
    /// Positions of the stored entries, by the whole seconds of their timestamp.
    by_second: HashMap<i64, Vec<usize>>,
    weights: Vec<MessageWeight>,
    last_curr_rate: usize,
    burst_detected: (bool, usize),
    weight_map: Ghost<Map<Seq<char>, nat>>,
}

impl View for LogManager {
    type V = MonitorView;

    closed spec fn view(&self) -> MonitorView {
        MonitorView {
            entries: self.entries@.map_values(|l: Log| l@),
            weights: self.weight_map@,
            last_rate: self.last_curr_rate as nat,
            burst: (self.burst_detected.0, self.burst_detected.1 as nat),
        }
    }
}

impl LogManager {
    /// Every stored entry is listed under its timestamp's second, and every
    /// listed position holds an entry of that second.
    closed spec fn indexed(&self) -> bool {
        &&& forall|i: int|
            0 <= i < self.entries@.len() ==> {
                &&& self.by_second@.contains_key(#[trigger] self.entries@[i].timestamp.secs)
                &&& self.by_second@[self.entries@[i].timestamp.secs]@.contains(i as usize)
            }
        &&& forall|k: i64, j: int|
            #![trigger self.by_second@[k]@[j]]
            self.by_second@.contains_key(k) && 0 <= j < self.by_second@[k]@.len() ==> {
                &&& self.by_second@[k]@[j] < self.entries@.len()
                &&& self.entries@[self.by_second@[k]@[j] as int].timestamp.secs == k
            }
    }

    /// The stored entries are distinct and indexed, and the weight records
    /// hold one positive `u64` count per message, matching the weight map.
    pub closed spec fn wf(&self) -> bool {
        &&& self@.entries.no_duplicates()
        &&& self.indexed()
        &&& forall|i: int, j: int|
            0 <= i < j < self.weights@.len() ==> self.weights@[i].message@
                != self.weights@[j].message@
        &&& forall|i: int|
            0 <= i < self.weights@.len() ==> {
                &&& #[trigger] self.weights@[i].count >= 1
                &&& self.weight_map@.contains_key(self.weights@[i].message@)
                &&& self.weight_map@[self.weights@[i].message@] == self.weights@[i].count
            }
        &&& forall|m: Seq<char>|
            #[trigger] self.weight_map@.contains_key(m) ==> exists|i: int|
                0 <= i < self.weights@.len() && #[trigger] self.weights@[i].message@ == m
    }

    /// An empty monitor: no entries, no weights, rate zero, no burst.
    pub fn new() -> (r: LogManager)
        ensures
            r.wf(),
            r@.entries == Seq::<LogView>::empty(),
            r@.weights == Map::<Seq<char>, nat>::empty(),
            r@.last_rate == 0,
            r@.burst == (false, 0nat),
    {
        let r = LogManager {
            entries: Vec::new(),
            by_second: HashMap::new(),
            weights: Vec::new(),
            last_curr_rate: 0,
            burst_detected: (false, 0),
            weight_map: Ghost(Map::empty()),
        };
        proof {
            assert(r@.entries =~= Seq::<LogView>::empty());
        }
        r
    }

    /// Number of stored entries.
    pub fn entires_processed(&self) -> (r: usize)
        ensures
            r == self@.entries.len(),
    {
        self.entries.len()
    }

    /// The rate of the last sample.
    pub fn last_curr_rate(&self) -> (r: usize)
        ensures
            r == self@.last_rate,
    {
        self.last_curr_rate
    }

    /// The weight of `message`: how many exact duplicates of a stored entry
    /// with that message came in.
    pub fn weight(&self, message: &str) -> (r: u64)
        requires
            self.wf(),
        ensures
            r == weight_of(self@.weights, message@),
    {
        let key = message.to_owned();
        let mut i: usize = 0;
        while i < self.weights.len()
            invariant
                self.wf(),
                key@ == message@,
                i <= self.weights@.len(),
                forall|j: int| 0 <= j < i ==> self.weights@[j].message@ != message@,
            decreases self.weights@.len() - i,
        {
            if self.weights[i].message == key {
                return self.weights[i].count;
            }
            i = i + 1;
        }
        0
    }

    /// Index of the stored entry equal to `log`, if there is one. Only the
    /// entries of the same second are compared.
    fn find_entry(&self, log: &Log) -> (r: Option<usize>)
        requires
            self.wf(),
        ensures
            match r {
                Some(i) => i < self@.entries.len() && self@.entries[i as int] == log@,
                None => !self@.entries.contains(log@),
            },
    {
        match self.by_second.get(&log.timestamp.secs) {
            None => {
                proof {
                    if self@.entries.contains(log@) {
                        let i = choose|i: int|
                            0 <= i < self@.entries.len() && self@.entries[i] == log@;
                        assert(self.entries@[i].timestamp.secs == log.timestamp.secs);
                    }
                }
                None
            },
            Some(bucket) => {
                let ghost k = log.timestamp.secs;
                let mut j: usize = 0;
                while j < bucket.len()
                    invariant
                        self.wf(),
                        self.by_second@.contains_key(k),
                        *bucket == self.by_second@[k],
                        j <= bucket@.len(),
                        forall|t: int| 0 <= t < j ==> self@.entries[bucket@[t] as int] != log@,
                    decreases bucket@.len() - j,
                {
                    let pos = bucket[j];
                    assert(self.by_second@[k]@[j as int] == pos);
                    if self.entries[pos].eq(log) {
                        return Some(pos);
                    }
                    j = j + 1;
                }
                proof {
                    if self@.entries.contains(log@) {
                        let i = choose|i: int|
                            0 <= i < self@.entries.len() && self@.entries[i] == log@;
                        assert(self.entries@[i].timestamp.secs == k);
                        assert(self.by_second@[k]@.contains(i as usize));
                        assert(bucket@.contains(i as usize));
                        let t = choose|t: int| 0 <= t < bucket@.len() && bucket@[t] == i as usize;
                        assert(self.entries.len() == self.entries@.len());
                        assert(bucket@[t] as int == i);
                        assert(self@.entries[bucket@[t] as int] == log@);
                    }
                }
                None
            },
        }
    }

    /// Stores `log`, which is not stored yet, at the end and lists it in the index.
    fn append(&mut self, log: Log)
        requires
            old(self).wf(),
            !old(self)@.entries.contains(log@),
            old(self)@.entries.len() < usize::MAX,
        ensures
            final(self).wf(),
            final(self)@ == (MonitorView { entries: old(self)@.entries.push(log@), ..old(self)@ }),
    {
        let n = self.entries.len();
        let k = log.timestamp.secs;
        let mut bucket = match self.by_second.remove(&k) {
            Some(b) => b,
            None => Vec::new(),
        };
        let ghost old_bucket = bucket@;
        bucket.push(n);
        self.by_second.insert(k, bucket);
        let ghost v = log@;
        self.entries.push(log);
        proof {
            assert(self@.entries =~= old(self)@.entries.push(v));
            let es = self@.entries;
            assert forall|i: int, j: int|
                0 <= i < es.len() && 0 <= j < es.len() && i != j implies es[i] != es[j] by {
                if j == es.len() - 1 {
                    assert(old(self)@.entries[i] == es[i]);
                } else if i == es.len() - 1 {
                    assert(old(self)@.entries[j] == es[j]);
                }
            }
            assert(es.no_duplicates());
            assert(self.by_second@[k]@ == old_bucket.push(n));
            assert forall|i: int| 0 <= i < self.entries@.len() implies {
                &&& self.by_second@.contains_key(#[trigger] self.entries@[i].timestamp.secs)
                &&& self.by_second@[self.entries@[i].timestamp.secs]@.contains(i as usize)
            } by {
                if i == n {
                    assert(self.by_second@[k]@[old_bucket.len() as int] == n);
                } else {
                    assert(self.entries@[i] == old(self).entries@[i]);
                    let ki = self.entries@[i].timestamp.secs;
                    let t = choose|t: int|
                        0 <= t < old(self).by_second@[ki]@.len() && old(self).by_second@[ki]@[t]
                            == i as usize;
                    if ki == k {
                        assert(self.by_second@[k]@[t] == i as usize);
                    } else {
                        assert(self.by_second@[ki]@[t] == i as usize);
                    }
                }
            }
            assert forall|kk: i64, j: int|
                self.by_second@.contains_key(kk) && 0 <= j < self.by_second@[kk]@.len() implies {
                &&& #[trigger] self.by_second@[kk]@[j] < self.entries@.len()
                &&& self.entries@[self.by_second@[kk]@[j] as int].timestamp.secs == kk
            } by {
                if kk == k {
                    if j < old_bucket.len() {
                        assert(old(self).by_second@[k]@[j] == old_bucket[j]);
                    }
                } else {
                    assert(old(self).by_second@[kk]@[j] == self.by_second@[kk]@[j]);
                }
            }
            assert(self.weights@ == old(self).weights@);
        }
    }

    /// Raises the weight of `message` by one (to one if it had none).
    fn bump_weight(&mut self, message: String)
        requires
            old(self).wf(),
        ensures
            final(self).wf(),
            final(self)@ == (MonitorView {
                weights: old(self)@.weights.insert(
                    message@,
                    bumped(weight_of(old(self)@.weights, message@)),
                ),
                ..old(self)@
            }),
    {
        let mut i: usize = 0;
        while i < self.weights.len()
            invariant
                self.wf(),
                *self == *old(self),
                i <= self.weights@.len(),
                forall|j: int| 0 <= j < i ==> self.weights@[j].message@ != message@,
            decreases self.weights@.len() - i,
        {
            if self.weights[i].message == message {
                let c = self.weights[i].count;
                let n = if c < u64::MAX { c + 1 } else { c };
                self.weights[i].count = n;
                self.weight_map = Ghost(self.weight_map@.insert(message@, n as nat));
                proof {
                    assert(self.entries == old(self).entries);
                    assert(self.by_second == old(self).by_second);
                    assert(self.indexed());
                    assert forall|m: Seq<char>| #[trigger]
                        self.weight_map@.contains_key(m) implies exists|k: int|
                        0 <= k < self.weights@.len() && #[trigger] self.weights@[k].message@
                            == m by {
                        if m != message@ {
                            let k = choose|k: int|
                                0 <= k < old(self).weights@.len()
                                    && #[trigger] old(self).weights@[k].message@ == m;
                            assert(self.weights@[k].message@ == m);
                        } else {
                            assert(self.weights@[i as int].message@ == m);
                        }
                    }
                }
                return;
            }
            i = i + 1;
        }
        proof {
            assert(!self.weight_map@.contains_key(message@));
        }
        self.weights.push(MessageWeight { message, count: 1 });
        self.weight_map = Ghost(self.weight_map@.insert(message@, 1));
        proof {
            assert(self.entries == old(self).entries);
            assert(self.by_second == old(self).by_second);
            assert(self.indexed());
            let n = self.weights@.len() - 1;
            assert forall|m: Seq<char>| #[trigger]
                self.weight_map@.contains_key(m) implies exists|k: int|
                0 <= k < self.weights@.len() && #[trigger] self.weights@[k].message@ == m by {
                if m != message@ {
                    let k = choose|k: int|
                        0 <= k < old(self).weights@.len() && #[trigger] old(self).weights@[k].message@
                            == m;
                    assert(self.weights@[k].message@ == m);
                } else {
                    assert(self.weights@[n].message@ == m);
                }
            }
        }
    }

    /// Ingests one entry: an exact duplicate of a stored entry is not stored
    /// again but raises its message's weight; any other entry is appended.
    pub fn push(&mut self, log: Log)
        requires
            old(self).wf(),
            old(self)@.entries.len() < usize::MAX,
        ensures
            final(self).wf(),
            final(self)@ == ingest(old(self)@, log@),
    {
        match self.find_entry(&log) {
            Some(_) => {
                self.bump_weight(log.message);
            },
            None => {
                self.append(log);
            },
        }
    }

    /// Samples the ingestion rate: `prev` is the entry count read when the
    /// one-second quantum began, and the rate is how many entries were stored
    /// since. The rate is recorded; above `BURST_THRESHOLD` it also raises the
    /// burst flag and makes room for more entries.
    pub fn get_curr_rate_per_second(&mut self, prev: usize) -> (r: usize)
        requires
            old(self).wf(),
            prev <= old(self)@.entries.len(),
        ensures
            final(self).wf(),
            r == old(self)@.entries.len() - prev,
            final(self)@ == sampled(old(self)@, prev as nat),
    {
        let rate = self.entries.len() - prev;
        self.last_curr_rate = rate;
        if rate > BURST_THRESHOLD {
            self.burst_detected = (true, rate);
            self.entries.reserve(BURST_RESERVE);
        }
        proof {
            assert(self@.entries =~= old(self)@.entries);
            assert(self.weights@ == old(self).weights@);
        }
        rate
    }

    /// Takes the pending burst: its rate if one was raised since it was last
    /// taken, and `None` otherwise. The flag is cleared.
    pub fn detect_burst(&mut self) -> (r: Option<usize>)
        requires
            old(self).wf(),
        ensures
            final(self).wf(),
            final(self)@ == burst_consumed(old(self)@),
            r matches Some(rate) ==> pending_burst(old(self)@) == Some(rate as nat),
            r is None ==> pending_burst(old(self)@) is None,
    {
        let r = if self.burst_detected.0 {
            self.burst_detected.0 = false;
            Some(self.burst_detected.1)
        } else {
            None
        };
        proof {
            assert(self@.entries =~= old(self)@.entries);
            assert(self.weights@ == old(self).weights@);
        }
        r
    }

    /// Counts the stored entries of each category.
    pub fn category_breakdown(&self) -> (r: CategoryCounts)
        ensures
            counts_of(r, self@.entries),
    {
        let mut counts = CategoryCounts { error: 0, debug: 0, info: 0, uncategorized: 0 };
        let mut i: usize = 0;
        while i < self.entries.len()
            invariant
                i <= self.entries@.len(),
                counts_of(counts, self@.entries.subrange(0, i as int)),
            decreases self.entries@.len() - i,
        {
            proof {
                let before = self@.entries.subrange(0, i as int);
                let after = self@.entries.subrange(0, i + 1);
                assert(after.drop_last() =~= before);
                lemma_categories_partition(before);
            }
            match self.entries[i].log_type {
                TypeOfLog::Error => counts.error = counts.error + 1,
                TypeOfLog::Debug => counts.debug = counts.debug + 1,
                TypeOfLog::Info => counts.info = counts.info + 1,
                TypeOfLog::Uncategorized => counts.uncategorized = counts.uncategorized + 1,
            }
            i = i + 1;
        }
        proof {
            assert(self@.entries.subrange(0, i as int) =~= self@.entries);
        }
        counts
    }

    /// Entries of the debug, error and info categories, in that order.
    pub fn pattern_analysis(&self) -> (r: (usize, usize, usize))
        ensures
            r.0 == count_category(self@.entries, TypeOfLog::Debug),
            r.1 == count_category(self@.entries, TypeOfLog::Error),
            r.2 == count_category(self@.entries, TypeOfLog::Info),
    {
        let c = self.category_breakdown();
        (c.debug, c.error, c.info)
    }
}

} // verus!
