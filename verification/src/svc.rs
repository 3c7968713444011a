//! The record service: admission-checked saves and finds over the
//! durable store, shadowed by the optional in-process cache and
//! guarded by the optional deactivation watcher.
//!
//! Validation errors are decided before any store access. A find
//! consults the cache first and backfills it on a miss; a save
//! retries key generation until the key is unused, writes through,
//! seeds the cache and puts the key under watch.

use vstd::prelude::*;
use crate::anti_bot::AntiBot;
use crate::block::{BlockRules, spec_blocked};
use crate::cache::{CacheEntryView, RecordCache, cache_seeded};
use crate::config::Config;
use crate::crypto::{Crypto, Key, spec_validate};
use crate::dto::{FindRecordInput, FindRecordOutput, Record, RecordView, SaveRecordInput, SaveRecordOutput};
use crate::error::{PastebinError, PastebinErrorCode};
use crate::store::{MemStore, StoredEntryView, sat_add64};
use crate::time::UnixTimestamp;

verus! {

/// The service around one durable store instance; one per process,
/// shared by every request task.
pub struct PastebinService {
    config: Config,
    db: MemStore,
    crypto: Crypto,
    cache: Option<RecordCache>,
    block_rules: Option<BlockRules>,
    anti_bot: Option<AntiBot>,
}

impl PastebinService {
    /// Every component's own well-formedness.
    pub closed spec fn inv(&self) -> bool {
        &&& self.db.wf()
        &&& (match self.cache {
            Some(c) => c.wf(),
            None => true,
        })
        &&& (match self.anti_bot {
            Some(w) => w.wf(),
            None => true,
        })
    }

    pub closed spec fn spec_secret(&self) -> Seq<char> {
        self.crypto.spec_secret()
    }

    /// The durable store's image.
    pub closed spec fn spec_db(&self) -> Map<Seq<char>, StoredEntryView> {
        self.db.contents()
    }

    pub open spec fn spec_db_live(&self, k: Seq<char>, now: u64) -> bool {
        self.spec_db().contains_key(k) && now < self.spec_db()[k].expire_at
    }

    pub closed spec fn has_cache(&self) -> bool {
        self.cache is Some
    }

    /// The cache's image; empty when the cache is disabled.
    pub closed spec fn spec_cache(&self) -> Map<Seq<char>, CacheEntryView> {
        match self.cache {
            Some(c) => c.contents(),
            None => Map::empty(),
        }
    }

    pub open spec fn spec_cache_live(&self, k: Seq<char>, now: u64) -> bool {
        self.has_cache() && self.spec_cache().contains_key(k) && now < self.spec_cache()[k].dead_time
    }

    pub closed spec fn has_watcher(&self) -> bool {
        self.anti_bot is Some
    }

    /// The keys whose delayed deactivation is pending; empty when
    /// the watcher is disabled.
    pub closed spec fn spec_watched(&self) -> Set<Seq<char>> {
        match self.anti_bot {
            Some(w) => w.watched_keys(),
            None => Set::empty(),
        }
    }

    pub closed spec fn spec_max_title_chars(&self) -> usize {
        self.config.security.max_title_chars
    }

    pub closed spec fn spec_max_expiration(&self) -> u32 {
        self.config.security.max_expiration_seconds
    }

    pub closed spec fn spec_max_body(&self) -> usize {
        self.config.security.max_body_length
    }

    pub closed spec fn spec_rules(&self) -> Option<Seq<Seq<char>>> {
        match self.block_rules {
            Some(b) => Some(b.spec_patterns()),
            None => None,
        }
    }

    /// Whether the blocking rules trip on this input; never when no
    /// rules are configured.
    pub open spec fn spec_blocked_on(&self, input: &SaveRecordInput) -> bool {
        match self.spec_rules() {
            Some(patterns) => spec_blocked(patterns, input),
            None => false,
        }
    }

    /// The validation checks made before any store access, in the
    /// order they are applied.
    pub open spec fn spec_save_checks_ok(&self, input: &SaveRecordInput) -> bool {
        &&& input.title@.len() <= self.spec_max_title_chars()
        &&& input.expiration_seconds <= self.spec_max_expiration()
        &&& input.content@.len() <= self.spec_max_body()
    }

    /// Build the service from its configuration: an empty store, an
    /// empty cache when one is configured, an empty watch table when
    /// enabled. Fails exactly when a configured blocking pattern
    /// does not compile.
    pub fn new(config: Config) -> (r: Result<PastebinService, ()>)
        ensures
            (match r {
                Ok(svc) => {
                    &&& svc.inv()
                    &&& svc.spec_secret() == config.security.secret_key@
                    &&& svc.spec_db() == Map::<Seq<char>, StoredEntryView>::empty()
                    &&& svc.spec_cache() == Map::<Seq<char>, CacheEntryView>::empty()
                    &&& svc.spec_watched() == Set::<Seq<char>>::empty()
                    &&& svc.has_cache() == (config.cache is Some)
                    &&& svc.has_watcher() == config.security.anti_bot
                    &&& svc.spec_max_title_chars() == config.security.max_title_chars
                    &&& svc.spec_max_expiration() == config.security.max_expiration_seconds
                    &&& svc.spec_max_body() == config.security.max_body_length
                    &&& (svc.spec_rules() is Some <==> (
                    config.security.block_rules matches Some(p) && p.deep_view().len() > 0))
                },
                Err(()) => config.security.block_rules matches Some(p) && p.deep_view().len() > 0
                    && !crate::block::regex_patterns_valid(p.deep_view()),
            }),
    {
        let block_rules = match BlockRules::new(&config) {
            Ok(b) => b,
            Err(()) => {
                return Err(());
            },
        };
        let anti_bot = AntiBot::new(&config);
        let crypto = Crypto::new(config.security.secret_key.as_str());
        let cache = match &config.cache {
            Some(cc) => Some(RecordCache::new(cc.capacity)),
            None => None,
        };
        let db = MemStore::new();
        Ok(PastebinService { config, db, crypto, cache, block_rules, anti_bot })
    }

    /// What every request leaves alone: the secret, the limits, the
    /// rules, and which optional components exist.
    pub open spec fn same_shape(a: &PastebinService, b: &PastebinService) -> bool {
        &&& a.spec_secret() == b.spec_secret()
        &&& a.has_cache() == b.has_cache()
        &&& a.has_watcher() == b.has_watcher()
        &&& a.spec_max_title_chars() == b.spec_max_title_chars()
        &&& a.spec_max_expiration() == b.spec_max_expiration()
        &&& a.spec_max_body() == b.spec_max_body()
        &&& a.spec_rules() == b.spec_rules()
    }

    /// Look a key up, counting the read.
    ///
    /// A string that does not validate is refused outright. A
    /// validated key first confirms itself to the watcher, then
    /// tries the cache - a hit counts the read in the pending
    /// delta - and on a miss reads the durable store, whose
    /// atomic increment-and-fetch counts it instead; the result
    /// then backfills the cache with a dead time at the record's
    /// own expiry. A key live in neither place is not found.
    pub fn find_record(&mut self, input: FindRecordInput, now: u64) -> (r: Result<
        FindRecordOutput,
        PastebinError,
    >)
        requires
            old(self).inv(),
        ensures
            final(self).inv(),
            PastebinService::same_shape(old(self), final(self)),
            (r matches Err(e) ==> e.message@ == e.code.spec_message()),
            (match spec_validate(old(self).spec_secret(), input.key@) {
                None => {
                    &&& r matches Err(e) && e.code == PastebinErrorCode::BadKey
                    &&& final(self).spec_db() == old(self).spec_db()
                    &&& final(self).spec_cache() == old(self).spec_cache()
                    &&& final(self).spec_watched() == old(self).spec_watched()
                },
                Some(k) => {
                    &&& final(self).spec_watched() == old(self).spec_watched().remove(k)
                    &&& if old(self).spec_cache_live(k, now) {
                        let entry = old(self).spec_cache()[k];
                        let bumped = sat_add64(entry.delta, 1);
                        &&& r matches Ok(out) && out.record@ == entry.record && out.view_count
                            == sat_add64(entry.view_count, bumped)
                        &&& final(self).spec_db() == old(self).spec_db()
                        &&& final(self).spec_cache() == old(self).spec_cache().insert(
                            k,
                            CacheEntryView { delta: bumped, ..entry },
                        )
                    } else if old(self).spec_db_live(k, now) {
                        let entry = old(self).spec_db()[k];
                        let count = sat_add64(entry.view_count, 1);
                        &&& r matches Ok(out) && out.record@ == entry.record && out.view_count
                            == count
                        &&& final(self).spec_db() == old(self).spec_db().insert(
                            k,
                            StoredEntryView { view_count: count, ..entry },
                        )
                        &&& old(self).has_cache() ==> final(self).spec_cache() == cache_seeded(
                            old(self).spec_cache(),
                            k,
                            entry.record,
                            count,
                            sat_add64(entry.record.saving_time, entry.record.expiration_seconds as u64),
                            now,
                        )
                        &&& !old(self).has_cache() ==> final(self).spec_cache() == old(self).spec_cache()
                    } else {
                        &&& r matches Err(e) && e.code == PastebinErrorCode::NotFound
                        &&& final(self).spec_db() == old(self).spec_db()
                        &&& final(self).spec_cache() == old(self).spec_cache()
                    }
                },
            }),
    {
        let key = match self.crypto.validate(input.key.as_str()) {
            Some(k) => k,
            None => {
                return Err(PastebinError::from_code(PastebinErrorCode::BadKey));
            },
        };
        match &mut self.anti_bot {
            Some(w) => {
                w.cancel_deactivate(&key);
            },
            None => {
                proof {
                    assert(old(self).spec_watched() =~= old(self).spec_watched().remove(key@));
                }
            },
        }
        let mut cache_result: Option<(Record, u64)> = None;
        match &mut self.cache {
            Some(c) => {
                cache_result = c.access(&key, now);
            },
            None => {},
        }
        match cache_result {
            Some((record, view_count)) => {
                return Ok(FindRecordOutput { record, view_count });
            },
            None => {},
        }
        match self.db.access(&key, now) {
            Some((record, view_count)) => {
                match &mut self.cache {
                    Some(c) => {
                        let dead_time: u64 = {
                            let base = record.saving_time.seconds();
                            let ttl = record.expiration_seconds as u64;
                            if u64::MAX - base >= ttl {
                                base + ttl
                            } else {
                                u64::MAX
                            }
                        };
                        c.force_update(&key, &record, view_count, dead_time, now);
                    },
                    None => {},
                }
                Ok(FindRecordOutput { record, view_count })
            },
            None => Err(PastebinError::from_code(PastebinErrorCode::NotFound)),
        }
    }

    /// Generate keys until one is unused in the store. The retry
    /// budget is astronomically large, not infinite; running it out
    /// means every draw collided and surfaces as an internal error.
    fn fresh_key(&self, now: u64) -> (r: Result<Key, PastebinError>)
        requires
            self.inv(),
        ensures
            (match r {
                Ok(k) => spec_validate(self.spec_secret(), k@) == Some(k@) && !self.spec_db_live(
                    k@,
                    now,
                ),
                Err(e) => e.code == PastebinErrorCode::InternalError && e.message@
                    == e.code.spec_message(),
            }),
    {
        let mut attempts: u64 = u64::MAX;
        while attempts > 0
            invariant
                self.inv(),
            decreases attempts,
        {
            let key = self.crypto.generate();
            if !self.db.exists_key(&key, now) {
                return Ok(key);
            }
            attempts = attempts - 1;
        }
        Err(PastebinError::from_code(PastebinErrorCode::InternalError))
    }

    /// Save a record under a fresh key.
    ///
    /// The length and expiration limits are checked first, in
    /// order, before any store access. An input tripping the
    /// blocking rules is silently dropped: it receives a
    /// well-formed key and nothing is written anywhere. Otherwise
    /// the record is written through under a key that was free at
    /// this instant, the cache is seeded with a zero count, and the
    /// key goes under watch for deactivation until a find confirms
    /// it.
    pub fn save_record(&mut self, input: SaveRecordInput, now: u64) -> (r: Result<
        SaveRecordOutput,
        PastebinError,
    >)
        requires
            old(self).inv(),
        ensures
            final(self).inv(),
            PastebinService::same_shape(old(self), final(self)),
            (r matches Err(e) ==> e.message@ == e.code.spec_message()),
            input.title@.len() > old(self).spec_max_title_chars() ==> (r matches Err(e) && e.code
                == PastebinErrorCode::TooLongTitle) && PastebinService::unchanged(
                old(self),
                final(self),
            ),
            input.title@.len() <= old(self).spec_max_title_chars() && input.expiration_seconds
                > old(self).spec_max_expiration() ==> (r matches Err(e) && e.code
                == PastebinErrorCode::TooLongExpirations) && PastebinService::unchanged(
                old(self),
                final(self),
            ),
            input.title@.len() <= old(self).spec_max_title_chars() && input.expiration_seconds
                <= old(self).spec_max_expiration() && input.content@.len() > old(self).spec_max_body() ==> (r matches Err(e) && e.code == PastebinErrorCode::TooLongContent)
                && PastebinService::unchanged(old(self), final(self)),
            old(self).spec_save_checks_ok(&input) && old(self).spec_blocked_on(&input) ==> (
            r matches Ok(out) && spec_validate(old(self).spec_secret(), out.key@) == Some(out.key@))
                && PastebinService::unchanged(old(self), final(self)),
            old(self).spec_save_checks_ok(&input) && !old(self).spec_blocked_on(&input) ==> (
            match r {
                Ok(out) => {
                    let k = out.key@;
                    let rv = RecordView {
                        title: input.title@,
                        lang: input.lang@,
                        content: input.content@,
                        expiration_seconds: input.expiration_seconds,
                        saving_time: now,
                    };
                    let expire = sat_add64(now, input.expiration_seconds as u64);
                    &&& spec_validate(old(self).spec_secret(), k) == Some(k)
                    &&& !old(self).spec_db_live(k, now)
                    &&& final(self).spec_db() == old(self).spec_db().insert(
                        k,
                        StoredEntryView { record: rv, view_count: 0, expire_at: expire },
                    )
                    &&& old(self).has_cache() ==> final(self).spec_cache() == cache_seeded(
                        old(self).spec_cache(),
                        k,
                        rv,
                        0,
                        expire,
                        now,
                    )
                    &&& !old(self).has_cache() ==> final(self).spec_cache() == old(self).spec_cache()
                    &&& old(self).has_watcher() ==> final(self).spec_watched() == old(self).spec_watched().insert(k)
                    &&& !old(self).has_watcher() ==> final(self).spec_watched() == old(self).spec_watched()
                },
                Err(e) => e.code == PastebinErrorCode::InternalError
                    && PastebinService::unchanged(old(self), final(self)),
            }),
    {
        match check_save_input(
            &input,
            self.config.security.max_title_chars,
            self.config.security.max_expiration_seconds,
            self.config.security.max_body_length,
        ) {
            Ok(()) => {},
            Err(e) => {
                return Err(e);
            },
        }
        let blocked = match &self.block_rules {
            Some(rules) => rules.is_match(&input),
            None => false,
        };
        if blocked {
            let key = self.crypto.generate();
            return Ok(SaveRecordOutput { key });
        }
        let key = match self.fresh_key(now) {
            Ok(k) => k,
            Err(e) => {
                return Err(e);
            },
        };
        let record = Record {
            title: input.title,
            lang: input.lang,
            content: input.content,
            expiration_seconds: input.expiration_seconds,
            saving_time: UnixTimestamp::from_seconds(now),
        };
        self.db.save(&key, &record, record.expiration_seconds, now);
        match &mut self.cache {
            Some(c) => {
                let expire: u64 = if u64::MAX - now >= record.expiration_seconds as u64 {
                    now + record.expiration_seconds as u64
                } else {
                    u64::MAX
                };
                c.force_update(&key, &record, 0, expire, now);
            },
            None => {},
        }
        match &mut self.anti_bot {
            Some(w) => {
                w.watch_deactivate(&key);
            },
            None => {},
        }
        Ok(SaveRecordOutput { key })
    }

    /// One reconciliation cycle, run once per period by the timer
    /// the surrounding program owns: every pending cache delta is
    /// folded into its entry and dispatched as one store increment
    /// per key - so N cache hits within one period cost one backend
    /// write - and the eviction pass then drops expired and excess
    /// entries. A key whose store entry has meanwhile expired loses
    /// its pending hits: the store is the authority.
    #[verifier::rlimit(60)]
    pub fn reconcile_cache(&mut self, now: u64)
        requires
            old(self).inv(),
        ensures
            final(self).inv(),
            PastebinService::same_shape(old(self), final(self)),
            final(self).spec_watched() == old(self).spec_watched(),
            forall|k: Seq<char>|
                final(self).spec_db().contains_key(k) <==> old(self).spec_db().contains_key(k),
            forall|k: Seq<char>| #[trigger]
                old(self).spec_db().contains_key(k) ==> final(self).spec_db()[k].record == old(
                    self,
                ).spec_db()[k].record && final(self).spec_db()[k].expire_at == old(
                    self,
                ).spec_db()[k].expire_at,
            forall|k: Seq<char>| #[trigger]
                old(self).spec_db().contains_key(k) && !(old(self).spec_cache().contains_key(k)
                    && old(self).spec_cache()[k].delta != 0) ==> final(self).spec_db()[k] == old(
                    self,
                ).spec_db()[k],
            forall|k: Seq<char>| #[trigger]
                old(self).spec_db().contains_key(k) && old(self).spec_cache().contains_key(k)
                    && old(self).spec_cache()[k].delta != 0 && now < old(
                    self,
                ).spec_db()[k].expire_at ==> final(self).spec_db()[k].view_count == sat_add64(
                    old(self).spec_db()[k].view_count,
                    old(self).spec_cache()[k].delta,
                ),
            forall|k: Seq<char>| #[trigger]
                old(self).spec_db().contains_key(k) && now >= old(self).spec_db()[k].expire_at
                    ==> final(self).spec_db()[k] == old(self).spec_db()[k],
            forall|k: Seq<char>| #[trigger]
                final(self).spec_cache().contains_key(k) ==> {
                    let after_drain = crate::cache::drained(old(self).spec_cache());
                    &&& after_drain.contains_key(k)
                    &&& final(self).spec_cache()[k] == after_drain[k]
                    &&& after_drain[k].dead_time > now
                },
    {
        let flushes: Vec<(Key, u64)> = match &mut self.cache {
            Some(c) => {
                let out = c.reconcile();
                c.evict(now);
                out
            },
            None => {
                return ;
            },
        };
        let ghost m0 = self.db.contents();
        let ghost fl = flushes@;
        let ghost cache_after = self.cache;
        let ghost cview = self.spec_cache();
        let n = flushes.len();
        let mut i: usize = 0;
        while i < n
            invariant
                self.db.wf(),
                n == fl.len(),
                i <= n,
                flushes@ == fl,
                self.cache == cache_after,
                self.spec_cache() == cview,
                self.has_cache() == old(self).has_cache(),
                (match self.cache {
                    Some(c) => c.wf(),
                    None => true,
                }),
                forall|k: Seq<char>| #[trigger]
                    cview.contains_key(k) ==> {
                        let after_drain = crate::cache::drained(old(self).spec_cache());
                        &&& after_drain.contains_key(k)
                        &&& cview[k] == after_drain[k]
                        &&& after_drain[k].dead_time > now
                    },
                self.anti_bot == old(self).anti_bot,
                self.block_rules == old(self).block_rules,
                self.crypto == old(self).crypto,
                self.config == old(self).config,
                forall|a: int, b: int| 0 <= a < b < fl.len() ==> fl[a].0@ != fl[b].0@,
                forall|k: Seq<char>|
                    self.db.contents().contains_key(k) <==> m0.contains_key(k),
                forall|k: Seq<char>| #[trigger]
                    m0.contains_key(k) ==> self.db.contents()[k].record == m0[k].record
                        && self.db.contents()[k].expire_at == m0[k].expire_at,
                forall|k: Seq<char>| #[trigger]
                    m0.contains_key(k) && (forall|idx: int|
                        0 <= idx < i ==> #[trigger] fl[idx].0@ != k) ==> self.db.contents()[k]
                        == m0[k],
                forall|idx: int|
                    0 <= idx < i ==> {
                        let k = #[trigger] fl[idx].0@;
                        m0.contains_key(k) && now < m0[k].expire_at
                            ==> self.db.contents()[k].view_count == sat_add64(
                            m0[k].view_count,
                            fl[idx].1,
                        )
                    },
                forall|k: Seq<char>| #[trigger]
                    m0.contains_key(k) && now >= m0[k].expire_at ==> self.db.contents()[k]
                        == m0[k],
            decreases n - i,
        {
            let key = flushes[i].0.clone();
            let delta = flushes[i].1;
            proof {
                assert(key@ == fl[i as int].0@);
            }
            let ghost before = self.db.contents();
            let _ = self.db.incr_view(&key, delta, now);
            proof {
                assert forall|k: Seq<char>| #[trigger]
                    m0.contains_key(k) && (forall|idx: int|
                        0 <= idx < i + 1 ==> #[trigger] fl[idx].0@ != k) implies
                    self.db.contents()[k] == m0[k] by {
                    assert(fl[i as int].0@ != k);
                    assert(before[k] == m0[k]);
                }
            }
            i = i + 1;
        }
    }

    /// What an input refused before the store leaves untouched:
    /// everything.
    pub open spec fn unchanged(a: &PastebinService, b: &PastebinService) -> bool {
        &&& b.spec_db() == a.spec_db()
        &&& b.spec_cache() == a.spec_cache()
        &&& b.spec_watched() == a.spec_watched()
    }

    /// The deactivation a watched key is due for: fired by the
    /// program's timer when no find confirmed the key in time, it
    /// deletes the key from the durable store and drops the watch.
    /// Firing for an unwatched key does nothing.
    pub fn deactivate_new_key(&mut self, key: &Key, now: u64) -> (deleted: bool)
        requires
            old(self).inv(),
        ensures
            final(self).inv(),
            PastebinService::same_shape(old(self), final(self)),
            final(self).spec_cache() == old(self).spec_cache(),
            old(self).spec_watched().contains(key@) ==> {
                &&& deleted == old(self).spec_db_live(key@, now)
                &&& final(self).spec_db() == old(self).spec_db().remove(key@)
                &&& final(self).spec_watched() == old(self).spec_watched().remove(key@)
            },
            !old(self).spec_watched().contains(key@) ==> {
                &&& !deleted
                &&& final(self).spec_db() == old(self).spec_db()
                &&& final(self).spec_watched() == old(self).spec_watched()
            },
    {
        let pending = match &mut self.anti_bot {
            Some(w) => w.cancel_deactivate(key),
            None => false,
        };
        if pending {
            self.db.delete(key, now)
        } else {
            false
        }
    }
}

/// The admission checks a save must pass before any store access,
/// in the order they are applied: title length in characters, then
/// requested lifetime, then content length.
pub fn check_save_input(
    input: &SaveRecordInput,
    max_title_chars: usize,
    max_expiration_seconds: u32,
    max_body_length: usize,
) -> (r: Result<(), PastebinError>)
    ensures
        (match r {
            Ok(()) => input.title@.len() <= max_title_chars && input.expiration_seconds
                <= max_expiration_seconds && input.content@.len() <= max_body_length,
            Err(e) => {
                &&& e.message@ == e.code.spec_message()
                &&& (e.code == PastebinErrorCode::TooLongTitle || e.code
                    == PastebinErrorCode::TooLongExpirations || e.code
                    == PastebinErrorCode::TooLongContent)
                &&& (e.code == PastebinErrorCode::TooLongTitle <==> input.title@.len()
                    > max_title_chars)
                &&& (e.code == PastebinErrorCode::TooLongExpirations <==> input.title@.len()
                    <= max_title_chars && input.expiration_seconds > max_expiration_seconds)
                &&& (e.code == PastebinErrorCode::TooLongContent <==> input.title@.len()
                    <= max_title_chars && input.expiration_seconds <= max_expiration_seconds
                    && input.content@.len() > max_body_length)
            },
        }),
{
    if input.title.as_str().unicode_len() > max_title_chars {
        return Err(PastebinError::from_code(PastebinErrorCode::TooLongTitle));
    }
    if input.expiration_seconds > max_expiration_seconds {
        return Err(PastebinError::from_code(PastebinErrorCode::TooLongExpirations));
    }
    if input.content.as_str().unicode_len() > max_body_length {
        return Err(PastebinError::from_code(PastebinErrorCode::TooLongContent));
    }
    Ok(())
}

} // verus!
