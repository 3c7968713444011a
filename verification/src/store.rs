//! In-memory model of the durable store.
//!
//! The backend is a TTL-capable hash-field store: one field group
//! per key holding the record and a view counter, destroyed by
//! expiry or explicit delete. This module is that store's state
//! machine over plain values; the network layer around the core
//! drives a real backend through the same contracts.

use vstd::prelude::*;
use crate::crypto::Key;
use crate::dto::{Record, RecordView};

verus! {

/// Sum capped at the top of the counter range, mirroring an
/// increment that can no longer grow.
pub open spec fn sat_add64(a: u64, b: u64) -> u64 {
    if a + b <= u64::MAX {
        (a + b) as u64
    } else {
        u64::MAX
    }
}

/// Ghost image of one stored entry: the record, its view counter,
/// and the absolute second after which the backend drops it.
#[verifier::ext_equal]
pub ghost struct StoredEntryView {
    pub record: RecordView,
    pub view_count: u64,
    pub expire_at: u64,
}

struct StoreSlot {
    key: Key,
    record: Record,
    view_count: u64,
    expire_at: u64,
}

impl StoreSlot {
    spec fn entry(&self) -> StoredEntryView {
        StoredEntryView {
            record: self.record@,
            view_count: self.view_count,
            expire_at: self.expire_at,
        }
    }
}

spec fn slots_map(s: Seq<StoreSlot>) -> Map<Seq<char>, StoredEntryView>
    decreases s.len(),
{
    if s.len() == 0 {
        Map::empty()
    } else {
        slots_map(s.drop_last()).insert(s.last().key@, s.last().entry())
    }
}

spec fn distinct_keys(s: Seq<StoreSlot>) -> bool {
    forall|i: int, j: int| 0 <= i < j < s.len() ==> s[i].key@ != s[j].key@
}

proof fn lemma_slots_map_contains(s: Seq<StoreSlot>, k: Seq<char>)
    ensures
        slots_map(s).contains_key(k) <==> exists|i: int| 0 <= i < s.len() && s[i].key@ == k,
    decreases s.len(),
{
    if s.len() > 0 {
        lemma_slots_map_contains(s.drop_last(), k);
        if s.last().key@ == k {
            assert(s[s.len() - 1].key@ == k);
        } else if slots_map(s).contains_key(k) {
            let i = choose|i: int| 0 <= i < s.drop_last().len() && s.drop_last()[i].key@ == k;
            assert(s[i].key@ == k);
        } else {
            assert forall|i: int| 0 <= i < s.len() implies s[i].key@ != k by {
                if i < s.len() - 1 {
                    assert(s.drop_last()[i].key@ == s[i].key@);
                }
            }
        }
    }
}

proof fn lemma_slots_map_value(s: Seq<StoreSlot>, i: int)
    requires
        distinct_keys(s),
        0 <= i < s.len(),
    ensures
        slots_map(s).contains_key(s[i].key@),
        slots_map(s)[s[i].key@] == s[i].entry(),
    decreases s.len(),
{
    if i == s.len() - 1 {
    } else {
        assert(s.drop_last()[i] == s[i]);
        assert(distinct_keys(s.drop_last()));
        lemma_slots_map_value(s.drop_last(), i);
        assert(s[i].key@ != s.last().key@);
    }
}

proof fn lemma_slots_map_update(s: Seq<StoreSlot>, i: int, slot: StoreSlot)
    requires
        distinct_keys(s),
        0 <= i < s.len(),
        slot.key@ == s[i].key@,
    ensures
        slots_map(s.update(i, slot)) == slots_map(s).insert(slot.key@, slot.entry()),
        distinct_keys(s.update(i, slot)),
    decreases s.len(),
{
    let t = s.update(i, slot);
    assert forall|a: int, b: int| 0 <= a < b < t.len() implies t[a].key@ != t[b].key@ by {
        assert(s[a].key@ != s[b].key@);
    }
    if i == s.len() - 1 {
        assert(t.drop_last() =~= s.drop_last());
        assert(t.last() == slot);
    } else {
        assert(t.drop_last() =~= s.drop_last().update(i, slot));
        assert(distinct_keys(s.drop_last()));
        assert(s.drop_last()[i] == s[i]);
        lemma_slots_map_update(s.drop_last(), i, slot);
        assert(t.last() == s.last());
        assert(s[i].key@ != s.last().key@);
        assert(slots_map(t) == slots_map(s.drop_last()).insert(slot.key@, slot.entry()).insert(
            s.last().key@,
            s.last().entry(),
        ));
        assert(slots_map(s.drop_last()).insert(slot.key@, slot.entry()).insert(
            s.last().key@,
            s.last().entry(),
        ) =~= slots_map(s.drop_last()).insert(s.last().key@, s.last().entry()).insert(
            slot.key@,
            slot.entry(),
        ));
    }
}

proof fn lemma_slots_map_push(s: Seq<StoreSlot>, slot: StoreSlot)
    requires
        distinct_keys(s),
        forall|i: int| 0 <= i < s.len() ==> s[i].key@ != slot.key@,
    ensures
        slots_map(s.push(slot)) == slots_map(s).insert(slot.key@, slot.entry()),
        distinct_keys(s.push(slot)),
{
    assert(s.push(slot).drop_last() =~= s);
    assert(s.push(slot).last() == slot);
    let t = s.push(slot);
    assert forall|a: int, b: int| 0 <= a < b < t.len() implies t[a].key@ != t[b].key@ by {
        if b < t.len() - 1 {
            assert(s[a].key@ != s[b].key@);
        } else {
            assert(t[a] == s[a]);
        }
    }
}

proof fn lemma_slots_map_remove(s: Seq<StoreSlot>, i: int)
    requires
        distinct_keys(s),
        0 <= i < s.len(),
    ensures
        slots_map(s.remove(i)) == slots_map(s).remove(s[i].key@),
        distinct_keys(s.remove(i)),
    decreases s.len(),
{
    let t = s.remove(i);
    assert forall|a: int, b: int| 0 <= a < b < t.len() implies t[a].key@ != t[b].key@ by {
        let a0 = if a < i {
            a
        } else {
            a + 1
        };
        let b0 = if b < i {
            b
        } else {
            b + 1
        };
        assert(t[a] == s[a0] && t[b] == s[b0]);
        assert(s[a0].key@ != s[b0].key@);
    }
    if i == s.len() - 1 {
        assert(t =~= s.drop_last());
        lemma_slots_map_contains(t, s[i].key@);
        assert forall|j: int| 0 <= j < t.len() implies t[j].key@ != s[i].key@ by {
            assert(t[j] == s[j]);
        }
        assert(!slots_map(t).contains_key(s[i].key@));
        assert(slots_map(s.drop_last()) =~= slots_map(s.drop_last()).insert(
            s.last().key@,
            s.last().entry(),
        ).remove(s.last().key@));
    } else {
        assert(t.drop_last() =~= s.drop_last().remove(i));
        assert(distinct_keys(s.drop_last()));
        assert(s.drop_last()[i] == s[i]);
        lemma_slots_map_remove(s.drop_last(), i);
        assert(t.last() == s.last());
        assert(s[i].key@ != s.last().key@);
        assert(slots_map(t) == slots_map(s.drop_last()).remove(s[i].key@).insert(
            s.last().key@,
            s.last().entry(),
        ));
        assert(slots_map(s.drop_last()).remove(s[i].key@).insert(s.last().key@, s.last().entry())
            =~= slots_map(s.drop_last()).insert(s.last().key@, s.last().entry()).remove(
            s[i].key@,
        ));
    }
}

/// The abstract durable store: a finite map from canonical key
/// strings to stored entries.
pub struct MemStore {
    slots: Vec<StoreSlot>,
}

impl MemStore {
    /// What the store holds, keyed by canonical key string.
    pub closed spec fn contents(&self) -> Map<Seq<char>, StoredEntryView> {
        slots_map(self.slots@)
    }

    /// One physical entry per key.
    pub closed spec fn wf(&self) -> bool {
        distinct_keys(self.slots@)
    }

    /// A key answers lookups at `now` exactly when it is present
    /// and its expiry lies in the future.
    pub open spec fn spec_live(&self, k: Seq<char>, now: u64) -> bool {
        self.contents().contains_key(k) && now < self.contents()[k].expire_at
    }

    pub fn new() -> (s: MemStore)
        ensures
            s.wf(),
            s.contents() == Map::<Seq<char>, StoredEntryView>::empty(),
    {
        MemStore { slots: Vec::new() }
    }

    fn find_index(&self, key: &Key) -> (r: Option<usize>)
        ensures
            (match r {
                Some(i) => i < self.slots@.len() && self.slots@[i as int].key@ == key@,
                None => forall|i: int| 0 <= i < self.slots@.len() ==> self.slots@[i].key@ != key@,
            }),
    {
        let n = self.slots.len();
        let mut i: usize = 0;
        while i < n
            invariant
                n == self.slots@.len(),
                i <= n,
                forall|j: int| 0 <= j < i ==> self.slots@[j].key@ != key@,
            decreases n - i,
        {
            if self.slots[i].key == *key {
                return Some(i);
            }
            i = i + 1;
        }
        None
    }

    /// Whether the backend still holds a live entry for the key.
    pub fn exists_key(&self, key: &Key, now: u64) -> (r: bool)
        requires
            self.wf(),
        ensures
            r == self.spec_live(key@, now),
    {
        proof {
            lemma_slots_map_contains(self.slots@, key@);
        }
        match self.find_index(key) {
            Some(i) => {
                proof {
                    lemma_slots_map_value(self.slots@, i as int);
                }
                now < self.slots[i].expire_at
            },
            None => false,
        }
    }

    /// Write the record under the key as one atomic field-group
    /// write: counter zero, expiry `ttl_seconds` from `now`. A
    /// colliding entry is overwritten whole; there is no partial
    /// write.
    pub fn save(&mut self, key: &Key, record: &Record, ttl_seconds: u32, now: u64)
        requires
            old(self).wf(),
        ensures
            final(self).wf(),
            final(self).contents() == old(self).contents().insert(
                key@,
                StoredEntryView {
                    record: record@,
                    view_count: 0,
                    expire_at: sat_add64(now, ttl_seconds as u64),
                },
            ),
    {
        let expire_at: u64 = if u64::MAX - now >= ttl_seconds as u64 {
            now + ttl_seconds as u64
        } else {
            u64::MAX
        };
        let slot = StoreSlot { key: key.clone(), record: record.clone(), view_count: 0, expire_at };
        match self.find_index(key) {
            Some(i) => {
                proof {
                    lemma_slots_map_update(self.slots@, i as int, slot);
                }
                self.slots[i] = slot;
            },
            None => {
                proof {
                    lemma_slots_map_push(self.slots@, slot);
                }
                self.slots.push(slot);
            },
        }
    }

    /// Read the record under the key, first raising its view
    /// counter by one; increment and read are one atomic step, so
    /// no concurrent read can hide another's increment. An absent
    /// or expired key reads as nothing and changes nothing.
    pub fn access(&mut self, key: &Key, now: u64) -> (r: Option<(Record, u64)>)
        requires
            old(self).wf(),
        ensures
            final(self).wf(),
            old(self).spec_live(key@, now) ==> (match r {
                Some((record, count)) => {
                    let entry = old(self).contents()[key@];
                    &&& record@ == entry.record
                    &&& count == sat_add64(entry.view_count, 1)
                    &&& final(self).contents() == old(self).contents().insert(
                        key@,
                        StoredEntryView { view_count: count, ..entry },
                    )
                },
                None => false,
            }),
            !old(self).spec_live(key@, now) ==> r is None && final(self).contents() == old(
                self,
            ).contents(),
    {
        proof {
            lemma_slots_map_contains(self.slots@, key@);
        }
        match self.find_index(key) {
            Some(i) => {
                proof {
                    lemma_slots_map_value(self.slots@, i as int);
                }
                if now < self.slots[i].expire_at {
                    let prev = self.slots[i].view_count;
                    let count: u64 = if prev < u64::MAX {
                        prev + 1
                    } else {
                        u64::MAX
                    };
                    let record = self.slots[i].record.clone();
                    let slot = StoreSlot {
                        key: key.clone(),
                        record: self.slots[i].record.clone(),
                        view_count: count,
                        expire_at: self.slots[i].expire_at,
                    };
                    proof {
                        lemma_slots_map_update(self.slots@, i as int, slot);
                    }
                    self.slots[i] = slot;
                    Some((record, count))
                } else {
                    None
                }
            },
            None => None,
        }
    }

    /// Raise the view counter of a live key by `delta` in one
    /// atomic step and return the new count; used by the cache's
    /// reconciliation path, decoupled from the read path.
    pub fn incr_view(&mut self, key: &Key, delta: u64, now: u64) -> (r: Option<u64>)
        requires
            old(self).wf(),
        ensures
            final(self).wf(),
            old(self).spec_live(key@, now) ==> (match r {
                Some(count) => {
                    let entry = old(self).contents()[key@];
                    &&& count == sat_add64(entry.view_count, delta)
                    &&& final(self).contents() == old(self).contents().insert(
                        key@,
                        StoredEntryView { view_count: count, ..entry },
                    )
                },
                None => false,
            }),
            !old(self).spec_live(key@, now) ==> r is None && final(self).contents() == old(
                self,
            ).contents(),
    {
        proof {
            lemma_slots_map_contains(self.slots@, key@);
        }
        match self.find_index(key) {
            Some(i) => {
                proof {
                    lemma_slots_map_value(self.slots@, i as int);
                }
                if now < self.slots[i].expire_at {
                    let prev = self.slots[i].view_count;
                    let count: u64 = if u64::MAX - prev >= delta {
                        prev + delta
                    } else {
                        u64::MAX
                    };
                    let slot = StoreSlot {
                        key: key.clone(),
                        record: self.slots[i].record.clone(),
                        view_count: count,
                        expire_at: self.slots[i].expire_at,
                    };
                    proof {
                        lemma_slots_map_update(self.slots@, i as int, slot);
                    }
                    self.slots[i] = slot;
                    Some(count)
                } else {
                    None
                }
            },
            None => None,
        }
    }

    /// Remove the key unconditionally; says whether a live entry
    /// went away.
    pub fn delete(&mut self, key: &Key, now: u64) -> (deleted: bool)
        requires
            old(self).wf(),
        ensures
            final(self).wf(),
            deleted == old(self).spec_live(key@, now),
            final(self).contents() == old(self).contents().remove(key@),
    {
        proof {
            lemma_slots_map_contains(self.slots@, key@);
        }
        match self.find_index(key) {
            Some(i) => {
                proof {
                    lemma_slots_map_value(self.slots@, i as int);
                    lemma_slots_map_remove(self.slots@, i as int);
                }
                let live = now < self.slots[i].expire_at;
                self.slots.remove(i);
                live
            },
            None => {
                proof {
                    assert(old(self).contents() =~= old(self).contents().remove(key@));
                }
                false
            },
        }
    }
}

/// One atomic read-side increment applied to the store image: the
/// key's counter raised by one, everything else untouched.
pub open spec fn bump_one(m: Map<Seq<char>, StoredEntryView>, k: Seq<char>) -> Map<
    Seq<char>,
    StoredEntryView,
> {
    if m.contains_key(k) {
        m.insert(k, StoredEntryView { view_count: sat_add64(m[k].view_count, 1), ..m[k] })
    } else {
        m
    }
}

/// The store image after `n` reads of the key, each applying one
/// atomic increment.
pub open spec fn after_reads(m: Map<Seq<char>, StoredEntryView>, k: Seq<char>, n: nat) -> Map<
    Seq<char>,
    StoredEntryView,
> decreases n,
{
    if n == 0 {
        m
    } else {
        bump_one(after_reads(m, k, (n - 1) as nat), k)
    }
}

/// Reads never lose an increment: in whatever order `n` reads of a
/// key land, each is one atomic increment-and-fetch, so the stored
/// counter ends exactly `n` above where it started, and nothing
/// else moves. Stated below the counter's ceiling; at the ceiling
/// the counter pins to the top instead.
/// A record saved and immediately read back: the save leaves the
/// key live whenever its lifetime has not already been capped away,
/// and the read's one atomic increment reports a view count of
/// exactly one with every record field verbatim.
pub proof fn lemma_save_then_access(
    m: Map<Seq<char>, StoredEntryView>,
    k: Seq<char>,
    rv: RecordView,
    ttl_seconds: u32,
    now: u64,
)
    requires
        now < sat_add64(now, ttl_seconds as u64),
    ensures
        ({
            let saved = m.insert(
                k,
                StoredEntryView {
                    record: rv,
                    view_count: 0,
                    expire_at: sat_add64(now, ttl_seconds as u64),
                },
            );
            let read = bump_one(saved, k);
            &&& saved.contains_key(k) && now < saved[k].expire_at
            &&& read[k].view_count == 1
            &&& read[k].record == rv
        }),
{
}

pub proof fn lemma_reads_accumulate(m: Map<Seq<char>, StoredEntryView>, k: Seq<char>, n: nat)
    requires
        m.contains_key(k),
        m[k].view_count + n <= u64::MAX,
    ensures
        after_reads(m, k, n).contains_key(k),
        after_reads(m, k, n)[k].view_count == m[k].view_count + n,
        after_reads(m, k, n)[k].record == m[k].record,
        after_reads(m, k, n)[k].expire_at == m[k].expire_at,
        forall|k2: Seq<char>| k2 != k ==> (after_reads(m, k, n).contains_key(k2) <==> m.contains_key(
            k2,
        )),
        forall|k2: Seq<char>| k2 != k && m.contains_key(k2) ==> after_reads(m, k, n)[k2] == m[k2],
    decreases n,
{
    if n > 0 {
        lemma_reads_accumulate(m, k, (n - 1) as nat);
    }
}

} // verus!
