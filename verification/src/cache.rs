//! Write-coalescing in-process cache over the durable store.
//!
//! Each entry shadows one stored record and absorbs read-side view
//! increments into a pending delta; a periodic reconciliation pass
//! drains the deltas into one backend increment per key and then
//! bounds the cache by removing expired entries and, by a uniform
//! random draw per entry, roughly all entries beyond the configured
//! capacity. Stale reads are tolerated by design: a miss on any key
//! at any time is acceptable, losing a flushed count is not.

use vstd::prelude::*;
use crate::crypto::Key;
use crate::dto::{Record, RecordView};
use crate::store::sat_add64;

verus! {

/// Ghost image of one cache entry: the record, the view count
/// already reconciled into the store (`view_count`), the hits still
/// pending (`delta`), and the absolute second after which the entry
/// is logically dead.
#[verifier::ext_equal]
pub ghost struct CacheEntryView {
    pub record: RecordView,
    pub view_count: u64,
    pub delta: u64,
    pub dead_time: u64,
}

struct CacheSlot {
    key: Key,
    record: Record,
    view_count: u64,
    delta: u64,
    dead_time: u64,
}

impl CacheSlot {
    spec fn entry(&self) -> CacheEntryView {
        CacheEntryView {
            record: self.record@,
            view_count: self.view_count,
            delta: self.delta,
            dead_time: self.dead_time,
        }
    }
}

spec fn slots_map(s: Seq<CacheSlot>) -> Map<Seq<char>, CacheEntryView>
    decreases s.len(),
{
    if s.len() == 0 {
        Map::empty()
    } else {
        slots_map(s.drop_last()).insert(s.last().key@, s.last().entry())
    }
}

spec fn distinct_keys(s: Seq<CacheSlot>) -> bool {
    forall|i: int, j: int| 0 <= i < j < s.len() ==> s[i].key@ != s[j].key@
}

proof fn lemma_slots_map_contains(s: Seq<CacheSlot>, k: Seq<char>)
    ensures
        slots_map(s).contains_key(k) <==> exists|i: int| 0 <= i < s.len() && s[i].key@ == k,
    decreases s.len(),
{
    if s.len() > 0 {
        lemma_slots_map_contains(s.drop_last(), k);
        if s.last().key@ == k {
            assert(s[s.len() - 1].key@ == k);
        } else if slots_map(s).contains_key(k) {
            let i = choose|i: int| 0 <= i < s.drop_last().len() && s.drop_last()[i].key@ == k;
            assert(s[i].key@ == k);
        } else {
            assert forall|i: int| 0 <= i < s.len() implies s[i].key@ != k by {
                if i < s.len() - 1 {
                    assert(s.drop_last()[i].key@ == s[i].key@);
                }
            }
        }
    }
}

proof fn lemma_slots_map_value(s: Seq<CacheSlot>, i: int)
    requires
        distinct_keys(s),
        0 <= i < s.len(),
    ensures
        slots_map(s).contains_key(s[i].key@),
        slots_map(s)[s[i].key@] == s[i].entry(),
    decreases s.len(),
{
    if i == s.len() - 1 {
    } else {
        assert(s.drop_last()[i] == s[i]);
        assert(distinct_keys(s.drop_last()));
        lemma_slots_map_value(s.drop_last(), i);
        assert(s[i].key@ != s.last().key@);
    }
}

proof fn lemma_slots_map_update(s: Seq<CacheSlot>, i: int, slot: CacheSlot)
    requires
        distinct_keys(s),
        0 <= i < s.len(),
        slot.key@ == s[i].key@,
    ensures
        slots_map(s.update(i, slot)) == slots_map(s).insert(slot.key@, slot.entry()),
        distinct_keys(s.update(i, slot)),
    decreases s.len(),
{
    let t = s.update(i, slot);
    assert forall|a: int, b: int| 0 <= a < b < t.len() implies t[a].key@ != t[b].key@ by {
        assert(s[a].key@ != s[b].key@);
    }
    if i == s.len() - 1 {
        assert(t.drop_last() =~= s.drop_last());
        assert(t.last() == slot);
    } else {
        assert(t.drop_last() =~= s.drop_last().update(i, slot));
        assert(distinct_keys(s.drop_last()));
        assert(s.drop_last()[i] == s[i]);
        lemma_slots_map_update(s.drop_last(), i, slot);
        assert(t.last() == s.last());
        assert(s[i].key@ != s.last().key@);
        assert(slots_map(t) == slots_map(s.drop_last()).insert(slot.key@, slot.entry()).insert(
            s.last().key@,
            s.last().entry(),
        ));
        assert(slots_map(s.drop_last()).insert(slot.key@, slot.entry()).insert(
            s.last().key@,
            s.last().entry(),
        ) =~= slots_map(s.drop_last()).insert(s.last().key@, s.last().entry()).insert(
            slot.key@,
            slot.entry(),
        ));
    }
}

proof fn lemma_slots_map_push(s: Seq<CacheSlot>, slot: CacheSlot)
    requires
        distinct_keys(s),
        forall|i: int| 0 <= i < s.len() ==> s[i].key@ != slot.key@,
    ensures
        slots_map(s.push(slot)) == slots_map(s).insert(slot.key@, slot.entry()),
        distinct_keys(s.push(slot)),
{
    assert(s.push(slot).drop_last() =~= s);
    assert(s.push(slot).last() == slot);
    let t = s.push(slot);
    assert forall|a: int, b: int| 0 <= a < b < t.len() implies t[a].key@ != t[b].key@ by {
        if b < t.len() - 1 {
            assert(s[a].key@ != s[b].key@);
        } else {
            assert(t[a] == s[a]);
        }
    }
}

/// Relies on rand::thread_rng and Rng::gen_range: a uniformly
/// random index below `n`; nothing relates two calls.
#[verifier::external_body]
fn random_below(n: usize) -> (r: usize)
    requires
        n > 0,
    ensures
        r < n,
{
    rand::Rng::gen_range(&mut rand::thread_rng(), 0..n)
}

/// The image of a cache after one seed: a dead seed changes
/// nothing, a fresh key enters with no pending hits, and over an
/// existing entry the record is refreshed while the reconciled
/// count and dead time only move upward.
pub open spec fn cache_seeded(
    m: Map<Seq<char>, CacheEntryView>,
    k: Seq<char>,
    record: RecordView,
    view_count: u64,
    dead_time: u64,
    now: u64,
) -> Map<Seq<char>, CacheEntryView> {
    if dead_time <= now {
        m
    } else if !m.contains_key(k) {
        m.insert(k, CacheEntryView { record, view_count, delta: 0, dead_time })
    } else {
        m.insert(
            k,
            CacheEntryView {
                record,
                view_count: if m[k].view_count >= view_count {
                    m[k].view_count
                } else {
                    view_count
                },
                delta: m[k].delta,
                dead_time: if m[k].dead_time >= dead_time {
                    m[k].dead_time
                } else {
                    dead_time
                },
            },
        )
    }
}

/// The image of a cache after one reconciliation drain: every
/// pending delta folded into the reconciled count and reset.
pub open spec fn drained(m: Map<Seq<char>, CacheEntryView>) -> Map<Seq<char>, CacheEntryView> {
    Map::new(
        |k: Seq<char>| m.contains_key(k),
        |k: Seq<char>|
            CacheEntryView {
                view_count: sat_add64(m[k].view_count, m[k].delta),
                delta: 0,
                ..m[k]
            },
    )
}

/// A fresh key seeded with a zero count and then hit once reports
/// a view count of exactly one, with the record verbatim: the hit
/// raises the pending delta to one over a zero reconciled count.
pub proof fn lemma_seed_then_hit(
    m: Map<Seq<char>, CacheEntryView>,
    k: Seq<char>,
    record: RecordView,
    dead_time: u64,
    now: u64,
)
    requires
        now < dead_time,
        !m.contains_key(k),
    ensures
        ({
            let seeded = cache_seeded(m, k, record, 0, dead_time, now);
            &&& seeded.contains_key(k) && now < seeded[k].dead_time
            &&& seeded[k].record == record
            &&& sat_add64(seeded[k].view_count, sat_add64(seeded[k].delta, 1)) == 1
        }),
{
}

/// Reconciliation is idempotent: a second drain with no new hits
/// moves no reconciled count, because the first left every delta
/// at zero.
pub proof fn lemma_drain_idempotent(m: Map<Seq<char>, CacheEntryView>)
    ensures
        drained(drained(m)) == drained(m),
        forall|k: Seq<char>| drained(m).contains_key(k) ==> #[trigger] drained(m)[k].delta == 0,
{
    assert(drained(drained(m)) =~= drained(m));
}

/// The in-process record cache. The surrounding program owns the
/// timer that drives `reconcile` and `evict` once per period and
/// dispatches the returned increments to the durable store.
pub struct RecordCache {
    slots: Vec<CacheSlot>,
    capacity: usize,
}

impl RecordCache {
    /// What the cache holds, keyed by canonical key string.
    pub closed spec fn contents(&self) -> Map<Seq<char>, CacheEntryView> {
        slots_map(self.slots@)
    }

    /// One physical entry per key.
    pub closed spec fn wf(&self) -> bool {
        distinct_keys(self.slots@)
    }

    /// How many entries the cache physically holds.
    pub closed spec fn spec_len(&self) -> nat {
        self.slots@.len()
    }

    /// The soft bound eviction steers the size toward.
    pub closed spec fn spec_capacity(&self) -> usize {
        self.capacity
    }

    /// An entry answers lookups at `now` exactly when it is present
    /// and its dead time lies in the future.
    pub open spec fn spec_live(&self, k: Seq<char>, now: u64) -> bool {
        self.contents().contains_key(k) && now < self.contents()[k].dead_time
    }

    pub fn new(capacity: usize) -> (c: RecordCache)
        ensures
            c.wf(),
            c.contents() == Map::<Seq<char>, CacheEntryView>::empty(),
            c.spec_capacity() == capacity,
    {
        RecordCache { slots: Vec::new(), capacity }
    }

    fn find_index(&self, key: &Key) -> (r: Option<usize>)
        ensures
            (match r {
                Some(i) => i < self.slots@.len() && self.slots@[i as int].key@ == key@,
                None => forall|i: int| 0 <= i < self.slots@.len() ==> self.slots@[i].key@ != key@,
            }),
    {
        let n = self.slots.len();
        let mut i: usize = 0;
        while i < n
            invariant
                n == self.slots@.len(),
                i <= n,
                forall|j: int| 0 <= j < i ==> self.slots@[j].key@ != key@,
            decreases n - i,
        {
            if self.slots[i].key == *key {
                return Some(i);
            }
            i = i + 1;
        }
        None
    }

    /// Read-path fast lookup. A hit counts itself: the pending
    /// delta rises by one and the reported count is the reconciled
    /// count plus every pending hit, so one reader's counts over a
    /// key never go backwards between evictions. An expired entry
    /// reads as a miss.
    pub fn access(&mut self, key: &Key, now: u64) -> (r: Option<(Record, u64)>)
        requires
            old(self).wf(),
        ensures
            final(self).wf(),
            final(self).spec_capacity() == old(self).spec_capacity(),
            old(self).spec_live(key@, now) ==> (match r {
                Some((record, count)) => {
                    let entry = old(self).contents()[key@];
                    &&& record@ == entry.record
                    &&& count == sat_add64(entry.view_count, sat_add64(entry.delta, 1))
                    &&& final(self).contents() == old(self).contents().insert(
                        key@,
                        CacheEntryView { delta: sat_add64(entry.delta, 1), ..entry },
                    )
                },
                None => false,
            }),
            !old(self).spec_live(key@, now) ==> r is None && final(self).contents() == old(
                self,
            ).contents(),
    {
        proof {
            lemma_slots_map_contains(self.slots@, key@);
        }
        match self.find_index(key) {
            Some(i) => {
                proof {
                    lemma_slots_map_value(self.slots@, i as int);
                }
                if now < self.slots[i].dead_time {
                    let prev = self.slots[i].delta;
                    let delta: u64 = if prev < u64::MAX {
                        prev + 1
                    } else {
                        u64::MAX
                    };
                    let base = self.slots[i].view_count;
                    let count: u64 = if u64::MAX - base >= delta {
                        base + delta
                    } else {
                        u64::MAX
                    };
                    let record = self.slots[i].record.clone();
                    let slot = CacheSlot {
                        key: key.clone(),
                        record: self.slots[i].record.clone(),
                        view_count: base,
                        delta,
                        dead_time: self.slots[i].dead_time,
                    };
                    proof {
                        lemma_slots_map_update(self.slots@, i as int, slot);
                    }
                    self.slots[i] = slot;
                    Some((record, count))
                } else {
                    None
                }
            },
            None => None,
        }
    }

    /// Seed the cache after a store write or a miss-driven
    /// backfill. A dead seed is dropped whole - an already-dead key
    /// is never resurrected. Over an existing entry the record is
    /// refreshed and the reconciled count and dead time are merged
    /// upward only, so a previously observed higher count or later
    /// expiry never regresses; the pending delta is untouched.
    pub fn force_update(&mut self, key: &Key, record: &Record, view_count: u64, dead_time: u64, now: u64)
        requires
            old(self).wf(),
        ensures
            final(self).wf(),
            final(self).spec_capacity() == old(self).spec_capacity(),
            dead_time <= now ==> final(self).contents() == old(self).contents(),
            dead_time > now && !old(self).contents().contains_key(key@) ==> final(self).contents()
                == old(self).contents().insert(
                key@,
                CacheEntryView { record: record@, view_count, delta: 0, dead_time },
            ),
            dead_time > now && old(self).contents().contains_key(key@) ==> {
                let entry = old(self).contents()[key@];
                final(self).contents() == old(self).contents().insert(
                    key@,
                    CacheEntryView {
                        record: record@,
                        view_count: if entry.view_count >= view_count {
                            entry.view_count
                        } else {
                            view_count
                        },
                        delta: entry.delta,
                        dead_time: if entry.dead_time >= dead_time {
                            entry.dead_time
                        } else {
                            dead_time
                        },
                    },
                )
            },
            final(self).contents() == cache_seeded(
                old(self).contents(),
                key@,
                record@,
                view_count,
                dead_time,
                now,
            ),
    {
        if dead_time <= now {
            return ;
        }
        proof {
            lemma_slots_map_contains(self.slots@, key@);
        }
        match self.find_index(key) {
            Some(i) => {
                proof {
                    lemma_slots_map_value(self.slots@, i as int);
                }
                let merged_count = if self.slots[i].view_count >= view_count {
                    self.slots[i].view_count
                } else {
                    view_count
                };
                let merged_dead = if self.slots[i].dead_time >= dead_time {
                    self.slots[i].dead_time
                } else {
                    dead_time
                };
                let slot = CacheSlot {
                    key: key.clone(),
                    record: record.clone(),
                    view_count: merged_count,
                    delta: self.slots[i].delta,
                    dead_time: merged_dead,
                };
                proof {
                    lemma_slots_map_update(self.slots@, i as int, slot);
                }
                self.slots[i] = slot;
            },
            None => {
                let slot = CacheSlot {
                    key: key.clone(),
                    record: record.clone(),
                    view_count,
                    delta: 0,
                    dead_time,
                };
                proof {
                    lemma_slots_map_push(self.slots@, slot);
                }
                self.slots.push(slot);
            },
        }
    }

    /// One reconciliation pass: fold every pending delta into its
    /// entry's reconciled count, reset it, and hand back one
    /// increment per key that had pending hits - N hits within one
    /// period become one backend write. Entries with nothing
    /// pending are left untouched and produce no increment.
    #[verifier::rlimit(100)]
    #[verifier::spinoff_prover]
    pub fn reconcile(&mut self) -> (out: Vec<(Key, u64)>)
        requires
            old(self).wf(),
        ensures
            final(self).wf(),
            final(self).spec_capacity() == old(self).spec_capacity(),
            final(self).spec_len() == old(self).spec_len(),
            final(self).contents() == drained(old(self).contents()),
            forall|idx: int|
                0 <= idx < out@.len() ==> old(self).contents().contains_key(#[trigger] out@[idx].0@)
                    && old(self).contents()[out@[idx].0@].delta == out@[idx].1 && out@[idx].1 != 0,
            forall|k: Seq<char>|
                old(self).contents().contains_key(k) && #[trigger] old(self).contents()[k].delta
                    != 0 ==> exists|idx: int|
                    0 <= idx < out@.len() && #[trigger] out@[idx].0@ == k,
            forall|a: int, b: int| 0 <= a < b < out@.len() ==> out@[a].0@ != out@[b].0@,
    {
        let ghost orig = self.slots@;
        let mut out: Vec<(Key, u64)> = Vec::new();
        let n = self.slots.len();
        let mut i: usize = 0;
        while i < n
            invariant
                old(self).wf(),
                orig == old(self).slots@,
                n == orig.len(),
                i <= n,
                self.capacity == old(self).capacity,
                self.slots@.len() == n,
                distinct_keys(self.slots@),
                forall|j: int| 0 <= j < n ==> #[trigger] self.slots@[j].key@ == orig[j].key@,
                forall|j: int|
                    i <= j < n ==> #[trigger] self.slots@[j].entry() == orig[j].entry(),
                forall|j: int|
                    0 <= j < i ==> #[trigger] self.slots@[j].entry() == (CacheEntryView {
                        view_count: sat_add64(orig[j].entry().view_count, orig[j].entry().delta),
                        delta: 0,
                        ..orig[j].entry()
                    }),
                forall|idx: int|
                    0 <= idx < out@.len() ==> exists|j: int|
                        0 <= j < i && #[trigger] out@[idx].0@ == orig[j].key@ && out@[idx].1
                            == orig[j].entry().delta && out@[idx].1 != 0,
                forall|j: int|
                    0 <= j < i && #[trigger] orig[j].entry().delta != 0 ==> exists|idx: int|
                        0 <= idx < out@.len() && #[trigger] out@[idx].0@ == orig[j].key@,
                forall|a: int, b: int| 0 <= a < b < out@.len() ==> out@[a].0@ != out@[b].0@,
            decreases n - i,
        {
            let ghost out_before = out@;
            proof {
                assert(self.slots@[i as int].entry() == orig[i as int].entry());
                assert(self.slots@[i as int].key@ == orig[i as int].key@);
            }
            let delta = self.slots[i].delta;
            if delta != 0 {
                let key2 = self.slots[i].key.clone();
                let base = self.slots[i].view_count;
                let folded: u64 = if u64::MAX - base >= delta {
                    base + delta
                } else {
                    u64::MAX
                };
                let slot = CacheSlot {
                    key: self.slots[i].key.clone(),
                    record: self.slots[i].record.clone(),
                    view_count: folded,
                    delta: 0,
                    dead_time: self.slots[i].dead_time,
                };
                proof {
                    lemma_slots_map_update(self.slots@, i as int, slot);
                    assert(slot.entry() == (CacheEntryView {
                        view_count: sat_add64(
                            orig[i as int].entry().view_count,
                            orig[i as int].entry().delta,
                        ),
                        delta: 0,
                        ..orig[i as int].entry()
                    }));
                }
                self.slots[i] = slot;
                out.push((key2, delta));
                proof {
                    assert(out@ == out_before.push((key2, delta)));
                    assert(out@[out@.len() - 1].0@ == orig[i as int].key@ && out@[out@.len()
                        - 1].1 == orig[i as int].entry().delta);
                    assert forall|idx: int| 0 <= idx < out@.len() implies exists|j: int|
                        0 <= j < i + 1 && #[trigger] out@[idx].0@ == orig[j].key@ && out@[idx].1
                            == orig[j].entry().delta && out@[idx].1 != 0 by {
                        if idx < out_before.len() {
                            assert(out@[idx] == out_before[idx]);
                            let j = choose|j: int|
                                0 <= j < i && #[trigger] out_before[idx].0@ == orig[j].key@
                                    && out_before[idx].1 == orig[j].entry().delta
                                    && out_before[idx].1 != 0;
                            assert(0 <= j < i + 1 && out@[idx].0@ == orig[j].key@ && out@[idx].1
                                == orig[j].entry().delta && out@[idx].1 != 0);
                        } else {
                            let j = i as int;
                            assert(0 <= j < i + 1 && out@[idx].0@ == orig[j].key@ && out@[idx].1
                                == orig[j].entry().delta && out@[idx].1 != 0);
                        }
                    }
                    assert forall|j: int|
                        0 <= j < i + 1 && #[trigger] orig[j].entry().delta != 0 implies exists|
                        idx: int,
                    |
                        0 <= idx < out@.len() && #[trigger] out@[idx].0@ == orig[j].key@ by {
                        if j < i {
                            let idx = choose|idx: int|
                                0 <= idx < out_before.len() && #[trigger] out_before[idx].0@
                                    == orig[j].key@;
                            assert(out@[idx] == out_before[idx]);
                        } else {
                            assert(out@[out@.len() - 1].0@ == orig[j].key@);
                        }
                    }
                    assert forall|a: int, b: int| 0 <= a < b < out@.len() implies out@[a].0@
                        != out@[b].0@ by {
                        if b < out_before.len() {
                            assert(out@[a] == out_before[a] && out@[b] == out_before[b]);
                        } else {
                            assert(out@[a] == out_before[a]);
                            let j = choose|j: int|
                                0 <= j < i && #[trigger] out_before[a].0@ == orig[j].key@
                                    && out_before[a].1 == orig[j].entry().delta && out_before[a].1
                                    != 0;
                            assert(orig[j].key@ != orig[i as int].key@);
                        }
                    }
                }
            } else {
                proof {
                    assert(orig[i as int].entry().delta == 0);
                    assert(sat_add64(orig[i as int].entry().view_count, 0) == orig[
                    i as int].entry().view_count);
                    assert(self.slots@[i as int].entry() == (CacheEntryView {
                        view_count: sat_add64(
                            orig[i as int].entry().view_count,
                            orig[i as int].entry().delta,
                        ),
                        delta: 0,
                        ..orig[i as int].entry()
                    }));
                }
            }
            i = i + 1;
        }
        proof {
            lemma_map_is_drained(orig, self.slots@);
            assert forall|idx: int|
                0 <= idx < out@.len() implies old(self).contents().contains_key(
                #[trigger] out@[idx].0@,
            ) && old(self).contents()[out@[idx].0@].delta == out@[idx].1 && out@[idx].1 != 0 by {
                let j = choose|j: int|
                    0 <= j < n && #[trigger] out@[idx].0@ == orig[j].key@ && out@[idx].1
                        == orig[j].entry().delta && out@[idx].1 != 0;
                lemma_slots_map_value(orig, j);
            }
            assert forall|k: Seq<char>|
                old(self).contents().contains_key(k) && #[trigger] old(self).contents()[k].delta
                    != 0 implies exists|idx: int|
                0 <= idx < out@.len() && #[trigger] out@[idx].0@ == k by {
                lemma_slots_map_contains(orig, k);
                let j = choose|j: int| 0 <= j < orig.len() && orig[j].key@ == k;
                lemma_slots_map_value(orig, j);
                assert(orig[j].entry().delta != 0);
            }
        }
        out
    }

    /// The eviction pass run after each reconciliation, under
    /// exclusive access to the map. Every expired entry goes
    /// unconditionally. Each surviving entry then draws one uniform
    /// random index over the pre-pass size and stays only if the
    /// draw falls below the capacity: a constant-time probabilistic
    /// bound in place of exact bookkeeping, so any entry may be
    /// evicted at any time - but while the cache is at or below
    /// capacity the draw can never fall outside it, and no live
    /// entry is lost. Entries that stay, stay exactly as they were.
    pub fn evict(&mut self, now: u64)
        requires
            old(self).wf(),
        ensures
            final(self).wf(),
            final(self).spec_capacity() == old(self).spec_capacity(),
            final(self).spec_len() <= old(self).spec_len(),
            forall|k: Seq<char>|
                #[trigger] final(self).contents().contains_key(k) ==> old(
                    self,
                ).contents().contains_key(k) && final(self).contents()[k] == old(self).contents()[k]
                    && old(self).contents()[k].dead_time > now,
            old(self).spec_len() <= old(self).spec_capacity() ==> forall|k: Seq<char>|
                #[trigger] old(self).contents().contains_key(k) && old(
                    self,
                ).contents()[k].dead_time > now ==> final(self).contents().contains_key(k),
    {
        let ghost orig = self.slots@;
        let n = self.slots.len();
        let mut kept: Vec<CacheSlot> = Vec::new();
        let mut i: usize = 0;
        while i < n
            invariant
                orig == old(self).slots@,
                distinct_keys(orig),
                n == orig.len(),
                i <= n,
                self.capacity == old(self).capacity,
                self.slots@ == orig.skip(i as int),
                kept@.len() <= i,
                forall|a: int|
                    0 <= a < kept@.len() ==> exists|j: int| 0 <= j < i && #[trigger] kept@[a]
                        == orig[j],
                forall|a: int, b: int| 0 <= a < b < kept@.len() ==> kept@[a].key@ != kept@[b].key@,
                forall|a: int| 0 <= a < kept@.len() ==> #[trigger] kept@[a].dead_time > now,
                n <= self.capacity ==> forall|j: int|
                    0 <= j < i && #[trigger] orig[j].dead_time > now ==> exists|a: int|
                        0 <= a < kept@.len() && #[trigger] kept@[a] == orig[j],
            decreases n - i,
        {
            let ghost kept_before = kept@;
            let slot = self.slots.remove(0);
            proof {
                assert(slot == orig[i as int]);
                assert(self.slots@ =~= orig.skip(i + 1));
            }
            let live = now < slot.dead_time;
            let keep = if live {
                let draw = random_below(n);
                draw < self.capacity
            } else {
                false
            };
            if keep {
                proof {
                    assert forall|a: int| 0 <= a < kept@.len() implies kept@[a].key@
                        != slot.key@ by {
                        let j = choose|j: int| 0 <= j < i && #[trigger] kept@[a] == orig[j];
                        assert(orig[j].key@ != orig[i as int].key@);
                    }
                }
                kept.push(slot);
            }
            proof {
                assert forall|a: int| 0 <= a < kept@.len() implies exists|j: int|
                    0 <= j < i + 1 && #[trigger] kept@[a] == orig[j] by {
                    if a < kept_before.len() {
                        assert(kept@[a] == kept_before[a]);
                        let j = choose|j: int| 0 <= j < i && #[trigger] kept_before[a] == orig[j];
                        assert(0 <= j < i + 1 && kept@[a] == orig[j]);
                    } else {
                        let j = i as int;
                        assert(kept@[a] == orig[j]);
                    }
                }
                if n <= self.capacity {
                    assert forall|j: int|
                        0 <= j < i + 1 && #[trigger] orig[j].dead_time > now implies exists|a: int|
                        0 <= a < kept@.len() && #[trigger] kept@[a] == orig[j] by {
                        if j < i {
                            let a = choose|a: int|
                                0 <= a < kept_before.len() && #[trigger] kept_before[a] == orig[j];
                            assert(kept@[a] == orig[j]);
                        } else {
                            assert(keep);
                            assert(kept@[kept@.len() - 1] == orig[j]);
                        }
                    }
                }
            }
            i = i + 1;
        }
        self.slots = kept;
        proof {
            assert forall|k: Seq<char>| #[trigger]
                slots_map(kept@).contains_key(k) implies slots_map(orig).contains_key(k)
                && slots_map(kept@)[k] == slots_map(orig)[k] && slots_map(orig)[k].dead_time
                > now by {
                lemma_slots_map_contains(kept@, k);
                let a = choose|a: int| 0 <= a < kept@.len() && kept@[a].key@ == k;
                lemma_slots_map_value(kept@, a);
                let j = choose|j: int| 0 <= j < orig.len() && kept@[a] == orig[j];
                lemma_slots_map_value(orig, j);
            }
            if orig.len() <= self.capacity {
                assert forall|k: Seq<char>| #[trigger]
                    slots_map(orig).contains_key(k) && slots_map(orig)[k].dead_time
                    > now implies slots_map(kept@).contains_key(k) by {
                    lemma_slots_map_contains(orig, k);
                    let j = choose|j: int| 0 <= j < orig.len() && orig[j].key@ == k;
                    lemma_slots_map_value(orig, j);
                    assert(orig[j].dead_time > now);
                    let a = choose|a: int|
                        0 <= a < kept@.len() && #[trigger] kept@[a] == orig[j];
                    lemma_slots_map_contains(kept@, k);
                }
            }
        }
    }
}

proof fn lemma_map_is_drained(s: Seq<CacheSlot>, t: Seq<CacheSlot>)
    requires
        distinct_keys(s),
        t.len() == s.len(),
        forall|j: int| 0 <= j < s.len() ==> #[trigger] t[j].key@ == s[j].key@,
        forall|j: int|
            0 <= j < s.len() ==> #[trigger] t[j].entry() == (CacheEntryView {
                view_count: sat_add64(s[j].entry().view_count, s[j].entry().delta),
                delta: 0,
                ..s[j].entry()
            }),
    ensures
        slots_map(t) == drained(slots_map(s)),
    decreases s.len(),
{
    assert(distinct_keys(t));
    if s.len() == 0 {
        assert(slots_map(t) =~= drained(slots_map(s)));
    } else {
        assert(forall|j: int|
            0 <= j < s.drop_last().len() ==> #[trigger] s.drop_last()[j] == s[j]);
        assert(forall|j: int|
            0 <= j < t.drop_last().len() ==> #[trigger] t.drop_last()[j] == t[j]);
        assert(distinct_keys(s.drop_last()));
        lemma_map_is_drained(s.drop_last(), t.drop_last());
        assert(t.last().key@ == s.last().key@);
        assert(t.last().entry() == (CacheEntryView {
            view_count: sat_add64(s.last().entry().view_count, s.last().entry().delta),
            delta: 0,
            ..s.last().entry()
        })) by {
            assert(t[t.len() - 1].entry() == (CacheEntryView {
                view_count: sat_add64(
                    s[s.len() - 1].entry().view_count,
                    s[s.len() - 1].entry().delta,
                ),
                delta: 0,
                ..s[s.len() - 1].entry()
            }));
        }
        assert(slots_map(t) =~= drained(slots_map(s)));
    }
}

} // verus!
