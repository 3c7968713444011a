//! Deactivation watcher: unconfirmed saves self-destruct.
//!
//! A save puts its fresh key under watch and the surrounding
//! program schedules a delayed deletion; a confirming find before
//! the delay elapses cancels it. This module is the watch table's
//! state machine; the timers themselves belong to the program
//! around the core, which must abort them when the watcher is
//! dropped.

use vstd::prelude::*;
use crate::config::Config;
use crate::crypto::Key;

verus! {

spec fn keys_set(s: Seq<Key>) -> Set<Seq<char>>
    decreases s.len(),
{
    if s.len() == 0 {
        Set::empty()
    } else {
        keys_set(s.drop_last()).insert(s.last()@)
    }
}

spec fn distinct_keys(s: Seq<Key>) -> bool {
    forall|i: int, j: int| 0 <= i < j < s.len() ==> s[i]@ != s[j]@
}

proof fn lemma_keys_set_contains(s: Seq<Key>, k: Seq<char>)
    ensures
        keys_set(s).contains(k) <==> exists|i: int| 0 <= i < s.len() && s[i]@ == k,
    decreases s.len(),
{
    if s.len() > 0 {
        lemma_keys_set_contains(s.drop_last(), k);
        if s.last()@ == k {
            assert(s[s.len() - 1]@ == k);
        } else if keys_set(s).contains(k) {
            let i = choose|i: int| 0 <= i < s.drop_last().len() && s.drop_last()[i]@ == k;
            assert(s[i]@ == k);
        } else {
            assert forall|i: int| 0 <= i < s.len() implies s[i]@ != k by {
                if i < s.len() - 1 {
                    assert(s.drop_last()[i]@ == s[i]@);
                }
            }
        }
    }
}

proof fn lemma_keys_set_push(s: Seq<Key>, key: Key)
    ensures
        keys_set(s.push(key)) == keys_set(s).insert(key@),
{
    assert(s.push(key).drop_last() =~= s);
    assert(s.push(key).last() == key);
}

proof fn lemma_keys_set_remove(s: Seq<Key>, i: int)
    requires
        distinct_keys(s),
        0 <= i < s.len(),
    ensures
        keys_set(s.remove(i)) == keys_set(s).remove(s[i]@),
        distinct_keys(s.remove(i)),
    decreases s.len(),
{
    let t = s.remove(i);
    assert forall|a: int, b: int| 0 <= a < b < t.len() implies t[a]@ != t[b]@ by {
        let a0 = if a < i {
            a
        } else {
            a + 1
        };
        let b0 = if b < i {
            b
        } else {
            b + 1
        };
        assert(t[a] == s[a0] && t[b] == s[b0]);
        assert(s[a0]@ != s[b0]@);
    }
    if i == s.len() - 1 {
        assert(t =~= s.drop_last());
        lemma_keys_set_contains(t, s[i]@);
        assert forall|j: int| 0 <= j < t.len() implies t[j]@ != s[i]@ by {
            assert(t[j] == s[j]);
        }
        assert(!keys_set(t).contains(s[i]@));
        assert(keys_set(s.drop_last()) =~= keys_set(s.drop_last()).insert(s.last()@).remove(
            s.last()@,
        ));
    } else {
        assert(t.drop_last() =~= s.drop_last().remove(i));
        assert(distinct_keys(s.drop_last()));
        assert(s.drop_last()[i] == s[i]);
        lemma_keys_set_remove(s.drop_last(), i);
        assert(t.last() == s.last());
        assert(s[i]@ != s.last()@);
        assert(keys_set(t) == keys_set(s.drop_last()).remove(s[i]@).insert(s.last()@));
        assert(keys_set(s.drop_last()).remove(s[i]@).insert(s.last()@) =~= keys_set(
            s.drop_last(),
        ).insert(s.last()@).remove(s[i]@));
    }
}

/// The set of keys whose delayed deactivation is still pending.
pub struct AntiBot {
    watched: Vec<Key>,
}

impl AntiBot {
    /// The keys currently under watch.
    pub closed spec fn watched_keys(&self) -> Set<Seq<char>> {
        keys_set(self.watched@)
    }

    /// One pending watch per key.
    pub closed spec fn wf(&self) -> bool {
        distinct_keys(self.watched@)
    }

    /// The watcher exists only when the configuration enables it;
    /// callers must cope with its absence.
    pub fn new(config: &Config) -> (r: Option<AntiBot>)
        ensures
            (match r {
                Some(w) => config.security.anti_bot && w.wf() && w.watched_keys() == Set::<
                    Seq<char>,
                >::empty(),
                None => !config.security.anti_bot,
            }),
    {
        if config.security.anti_bot {
            Some(AntiBot { watched: Vec::new() })
        } else {
            None
        }
    }

    /// Put a key under watch. A key already watched stays watched:
    /// the fresh schedule replaces the old one without cancelling
    /// it; callers wanting idempotent replacement cancel first.
    pub fn watch_deactivate(&mut self, key: &Key)
        requires
            old(self).wf(),
        ensures
            final(self).wf(),
            final(self).watched_keys() == old(self).watched_keys().insert(key@),
    {
        proof {
            lemma_keys_set_contains(self.watched@, key@);
        }
        match self.find_index(key) {
            Some(_) => {
                proof {
                    assert(old(self).watched_keys() =~= old(self).watched_keys().insert(key@));
                }
            },
            None => {
                let key2 = key.clone();
                proof {
                    lemma_keys_set_push(self.watched@, key2);
                }
                self.watched.push(key2);
                proof {
                    assert forall|a: int, b: int|
                        0 <= a < b < self.watched@.len() implies self.watched@[a]@
                        != self.watched@[b]@ by {
                        if b < self.watched@.len() - 1 {
                            assert(self.watched@[a] == old(self).watched@[a]);
                            assert(self.watched@[b] == old(self).watched@[b]);
                            assert(old(self).watched@[a]@ != old(self).watched@[b]@);
                        } else {
                            assert(self.watched@[a] == old(self).watched@[a]);
                            assert(old(self).watched@[a]@ != key@);
                        }
                    }
                }
            },
        }
    }

    /// Take a key out of watch, reporting whether a pending
    /// deactivation was there to cancel; a no-op on an unwatched
    /// key.
    pub fn cancel_deactivate(&mut self, key: &Key) -> (was_watched: bool)
        requires
            old(self).wf(),
        ensures
            final(self).wf(),
            was_watched == old(self).watched_keys().contains(key@),
            final(self).watched_keys() == old(self).watched_keys().remove(key@),
    {
        proof {
            lemma_keys_set_contains(self.watched@, key@);
        }
        match self.find_index(key) {
            Some(i) => {
                proof {
                    lemma_keys_set_remove(self.watched@, i as int);
                }
                self.watched.remove(i);
                true
            },
            None => {
                proof {
                    assert(old(self).watched_keys() =~= old(self).watched_keys().remove(key@));
                }
                false
            },
        }
    }

    fn find_index(&self, key: &Key) -> (r: Option<usize>)
        ensures
            (match r {
                Some(i) => i < self.watched@.len() && self.watched@[i as int]@ == key@,
                None => forall|i: int| 0 <= i < self.watched@.len() ==> self.watched@[i]@ != key@,
            }),
    {
        let n = self.watched.len();
        let mut i: usize = 0;
        while i < n
            invariant
                n == self.watched@.len(),
                i <= n,
                forall|j: int| 0 <= j < i ==> self.watched@[j]@ != key@,
            decreases n - i,
        {
            if self.watched[i] == *key {
                return Some(i);
            }
            i = i + 1;
        }
        None
    }
}

} // verus!
